//! The claims of a token and their text, the payload that is signed: a JSON
//! object without white space, with the fields `iat`, `exp`, `uid` and
//! `grants` in this order, the grants keyed by the guild's id.

use vstd::prelude::*;
use vstd::string::is_ascii_spec_bytes;
use vstd::utf8::is_ascii_chars;
use crate::digits::{
    decimal, is_digit, lemma_decimal_value, lemma_digits_end_bounds, lemma_number_at_decimal,
    number_at, push_decimal, read_number,
};

verus! {

/// The ASCII code of `"`.
pub const QUOTE: u8 = 34;

/// The ASCII code of `,`.
pub const COMMA: u8 = 44;

/// The ASCII code of `]`.
pub const CLOSE_BRACKET: u8 = 93;

/// The ASCII code of `}`.
pub const CLOSE_BRACE: u8 = 125;

/// What a token claims.
pub struct ClaimsView {
    /// When the token was issued, in seconds since the epoch.
    pub iat: u64,
    /// When the token expires, in seconds since the epoch.
    pub exp: u64,
    /// The user that the token was issued for.
    pub uid: u64,
    /// The roles to give, guild by guild, in the order of the payload.
    pub grants: Seq<(u64, Seq<u64>)>,
}

/// The roles of the guilds, each list of roles by its view.
pub open spec fn entry_views(entries: Seq<(u64, Vec<u64>)>) -> Seq<(u64, Seq<u64>)> {
    Seq::new(entries.len(), |i: int| (entries[i].0, entries[i].1@))
}

/// The claims of a token.
#[derive(Debug)]
pub struct Claims {
    /// When the token was issued, in seconds since the epoch.
    pub iat: u64,
    /// When the token expires, in seconds since the epoch.
    pub exp: u64,
    /// The user that the token was issued for.
    pub uid: u64,
    /// The roles to give, guild by guild.
    pub grants: Vec<(u64, Vec<u64>)>,
}

impl View for Claims {
    type V = ClaimsView;

    open spec fn view(&self) -> ClaimsView {
        ClaimsView {
            iat: self.iat,
            exp: self.exp,
            uid: self.uid,
            grants: entry_views(self.grants@),
        }
    }
}

/// The bytes of a text of ASCII characters.
pub open spec fn ascii(text: Seq<char>) -> Seq<u8> {
    Seq::new(text.len(), |i: int| text[i] as u8)
}

/// The text of the roles after the first: each with a comma before it.
pub open spec fn roles_tail(roles: Seq<u64>) -> Seq<u8>
    decreases roles.len(),
{
    if roles.len() == 0 {
        Seq::empty()
    } else {
        seq![COMMA] + decimal(roles[0] as nat) + roles_tail(roles.drop_first())
    }
}

/// The text of a list of roles, between its brackets: the numbers with
/// commas between them.
pub open spec fn roles_text(roles: Seq<u64>) -> Seq<u8> {
    if roles.len() == 0 {
        Seq::empty()
    } else {
        decimal(roles[0] as nat) + roles_tail(roles.drop_first())
    }
}

/// The text of the roles of one guild: the guild's id in quotes, a colon,
/// and the roles in brackets.
pub open spec fn entry_text(entry: (u64, Seq<u64>)) -> Seq<u8> {
    seq![QUOTE] + decimal(entry.0 as nat) + ascii("\":["@) + roles_text(entry.1) + seq![
        CLOSE_BRACKET,
    ]
}

/// The text of the guilds after the first: each with a comma before it.
pub open spec fn entries_tail(entries: Seq<(u64, Seq<u64>)>) -> Seq<u8>
    decreases entries.len(),
{
    if entries.len() == 0 {
        Seq::empty()
    } else {
        seq![COMMA] + entry_text(entries[0]) + entries_tail(entries.drop_first())
    }
}

/// The text of the grants, between their braces.
pub open spec fn entries_text(entries: Seq<(u64, Seq<u64>)>) -> Seq<u8> {
    if entries.len() == 0 {
        Seq::empty()
    } else {
        entry_text(entries[0]) + entries_tail(entries.drop_first())
    }
}

/// The payload of a token: the text of its claims.
pub open spec fn claims_text(claims: ClaimsView) -> Seq<u8> {
    ascii("{\"iat\":"@) + decimal(claims.iat as nat) + ascii(",\"exp\":"@) + decimal(
        claims.exp as nat,
    ) + ascii(",\"uid\":"@) + decimal(claims.uid as nat) + ascii(",\"grants\":{"@) + entries_text(
        claims.grants,
    ) + ascii("}}"@)
}

/// Whether the text `t` stands in `s` at position `i`.
pub open spec fn has_at(s: Seq<u8>, i: int, t: Seq<u8>) -> bool {
    0 <= i && i + t.len() <= s.len() && s.subrange(i, i + t.len()) == t
}

/// Whether the byte `b` stands in `s` at position `i`.
pub open spec fn byte_at(s: Seq<u8>, i: int, b: u8) -> bool {
    0 <= i < s.len() && s[i] == b
}

/// Reads the roles after the first, from position `i`: as long as a comma
/// stands there, a number follows it. `acc` holds the roles read so far.
pub open spec fn more_roles(s: Seq<u8>, i: int, acc: Seq<u64>) -> Option<(Seq<u64>, int)>
    decreases s.len() - i,
{
    if byte_at(s, i, COMMA) {
        match number_at(s, i + 1) {
            // a number ends behind its start: the test shows that the
            // reading ends
            Some((role, next)) => if i < next <= s.len() {
                more_roles(s, next, acc.push(role))
            } else {
                None
            },
            None => None,
        }
    } else {
        Some((acc, i))
    }
}

/// Reads a list of roles from position `i`, behind the opening bracket, up
/// to the closing one.
pub open spec fn roles_at(s: Seq<u8>, i: int) -> Option<(Seq<u64>, int)> {
    if byte_at(s, i, CLOSE_BRACKET) {
        Some((Seq::empty(), i))
    } else {
        match number_at(s, i) {
            Some((role, next)) => more_roles(s, next, seq![role]),
            None => None,
        }
    }
}

/// Reads the roles of one guild from position `i`.
pub open spec fn entry_at(s: Seq<u8>, i: int) -> Option<((u64, Seq<u64>), int)> {
    if byte_at(s, i, QUOTE) {
        match number_at(s, i + 1) {
            Some((guild, colon)) => if has_at(s, colon, ascii("\":["@)) {
                match roles_at(s, colon + 3) {
                    Some((roles, end)) => if byte_at(s, end, CLOSE_BRACKET) {
                        Some(((guild, roles), end + 1))
                    } else {
                        None
                    },
                    None => None,
                }
            } else {
                None
            },
            None => None,
        }
    } else {
        None
    }
}

/// Reads the guilds after the first, from position `i`: as long as a comma
/// stands there, the roles of a guild follow it.
pub open spec fn more_entries(s: Seq<u8>, i: int, acc: Seq<(u64, Seq<u64>)>) -> Option<
    (Seq<(u64, Seq<u64>)>, int),
>
    decreases s.len() - i,
{
    if byte_at(s, i, COMMA) {
        match entry_at(s, i + 1) {
            // as in `more_roles`
            Some((entry, next)) => if i < next <= s.len() {
                more_entries(s, next, acc.push(entry))
            } else {
                None
            },
            None => None,
        }
    } else {
        Some((acc, i))
    }
}

/// Reads the grants from position `i`, behind the opening brace, up to the
/// closing one.
pub open spec fn entries_at(s: Seq<u8>, i: int) -> Option<(Seq<(u64, Seq<u64>)>, int)> {
    if byte_at(s, i, CLOSE_BRACE) {
        Some((Seq::empty(), i))
    } else {
        match entry_at(s, i) {
            Some((entry, next)) => more_entries(s, next, seq![entry]),
            None => None,
        }
    }
}

/// Reads the number behind the text `label` that stands at position `i`.
pub open spec fn field_at(s: Seq<u8>, i: int, label: Seq<u8>) -> Option<(u64, int)> {
    if has_at(s, i, label) {
        number_at(s, i + label.len())
    } else {
        None
    }
}

/// The claims that a payload holds, or `None` where it is not the text of
/// any claims. Numbers may have leading zeros; nothing else is optional.
pub open spec fn claims_of_text(s: Seq<u8>) -> Option<ClaimsView> {
    match field_at(s, 0, ascii("{\"iat\":"@)) {
        Some((iat, i1)) => match field_at(s, i1, ascii(",\"exp\":"@)) {
            Some((exp, i2)) => match field_at(s, i2, ascii(",\"uid\":"@)) {
                Some((uid, i3)) => if has_at(s, i3, ascii(",\"grants\":{"@)) {
                    match entries_at(s, i3 + 11) {
                        Some((grants, i4)) => if has_at(s, i4, ascii("}}"@)) && i4 + 2 == s.len() {
                            Some(ClaimsView { iat, exp, uid, grants })
                        } else {
                            None
                        },
                        None => None,
                    }
                } else {
                    None
                },
                None => None,
            },
            None => None,
        },
        None => None,
    }
}

/// A text that stands somewhere can be taken apart there.
pub proof fn lemma_has_at_split(s: Seq<u8>, i: int, a: Seq<u8>, b: Seq<u8>)
    requires
        has_at(s, i, a + b),
    ensures
        has_at(s, i, a),
        has_at(s, i + a.len(), b),
{
    let t = a + b;
    assert(s.subrange(i, i + a.len()) =~= t.subrange(0, a.len() as int)) by {
        assert(s.subrange(i, i + t.len()) == t);
        assert forall|k: int| 0 <= k < a.len() implies s.subrange(i, i + a.len())[k] == t[k] by {
            assert(s.subrange(i, i + t.len())[k] == s[i + k]);
        }
    }
    assert(t.subrange(0, a.len() as int) =~= a);
    assert(s.subrange(i + a.len(), i + a.len() + b.len()) =~= b) by {
        assert forall|k: int| 0 <= k < b.len() implies s.subrange(
            i + a.len(),
            i + a.len() + b.len(),
        )[k] == b[k] by {
            assert(s.subrange(i, i + t.len())[a.len() + k] == s[i + a.len() + k]);
            assert(t[a.len() + k] == b[k]);
        }
    }
}

/// The first byte of a text that stands somewhere.
pub proof fn lemma_has_at_first(s: Seq<u8>, i: int, t: Seq<u8>)
    requires
        has_at(s, i, t),
        t.len() > 0,
    ensures
        byte_at(s, i, t[0]),
{
    assert(s.subrange(i, i + t.len())[0] == s[i]);
}

/// A decimal text that stands at `i`, with no digit behind it, is read as
/// the number it was made from.
pub proof fn lemma_number_at(s: Seq<u8>, i: int, n: u64)
    requires
        has_at(s, i, decimal(n as nat)),
        i + decimal(n as nat).len() == s.len() || !is_digit(s[i + decimal(n as nat).len()]),
    ensures
        number_at(s, i) == Some((n, i + decimal(n as nat).len())),
        decimal(n as nat).len() > 0,
        is_digit(s[i]),
{
    lemma_decimal_value(n as nat);
    lemma_number_at_decimal(s, i, n);
    lemma_has_at_first(s, i, decimal(n as nat));
    assert(is_digit(decimal(n as nat)[0]));
}

/// The text of the roles after the first is read as these roles.
pub proof fn lemma_more_roles(s: Seq<u8>, i: int, acc: Seq<u64>, rest: Seq<u64>)
    requires
        has_at(s, i, roles_tail(rest)),
        byte_at(s, i + roles_tail(rest).len(), CLOSE_BRACKET),
    ensures
        more_roles(s, i, acc) == Some((acc + rest, i + roles_tail(rest).len())),
    decreases rest.len(),
{
    if rest.len() == 0 {
        assert(acc + rest =~= acc);
    } else {
        let number = decimal(rest[0] as nat);
        let tail = roles_tail(rest.drop_first());
        assert(roles_tail(rest) == (seq![COMMA] + number) + tail);
        lemma_has_at_split(s, i, seq![COMMA] + number, tail);
        lemma_has_at_split(s, i, seq![COMMA], number);
        lemma_has_at_first(s, i, seq![COMMA]);
        let next = i + 1 + number.len();
        if rest.len() > 1 {
            assert(tail == (seq![COMMA] + decimal(rest.drop_first()[0] as nat)) + roles_tail(
                rest.drop_first().drop_first(),
            ));
            lemma_has_at_first(s, next, tail);
            assert(tail[0] == COMMA);
        } else {
            assert(tail.len() == 0);
        }
        lemma_number_at(s, i + 1, rest[0]);
        lemma_more_roles(s, next, acc.push(rest[0]), rest.drop_first());
        assert(acc.push(rest[0]) + rest.drop_first() =~= acc + rest);
    }
}

/// The text of a list of roles, with the closing bracket behind it, is read
/// as these roles.
pub proof fn lemma_roles_at(s: Seq<u8>, i: int, roles: Seq<u64>)
    requires
        has_at(s, i, roles_text(roles)),
        byte_at(s, i + roles_text(roles).len(), CLOSE_BRACKET),
    ensures
        roles_at(s, i) == Some((roles, i + roles_text(roles).len())),
{
    if roles.len() > 0 {
        let number = decimal(roles[0] as nat);
        let tail = roles_tail(roles.drop_first());
        lemma_has_at_split(s, i, number, tail);
        let next = i + number.len();
        if roles.len() > 1 {
            assert(tail == (seq![COMMA] + decimal(roles.drop_first()[0] as nat)) + roles_tail(
                roles.drop_first().drop_first(),
            ));
            lemma_has_at_first(s, next, tail);
            assert(tail[0] == COMMA);
        } else {
            assert(tail.len() == 0);
        }
        lemma_number_at(s, i, roles[0]);
        lemma_more_roles(s, next, seq![roles[0]], roles.drop_first());
        assert(seq![roles[0]] + roles.drop_first() =~= roles);
    } else {
        assert(roles =~= Seq::<u64>::empty());
    }
}

/// The text of the roles of one guild is read as that guild and those
/// roles.
pub proof fn lemma_entry_at(s: Seq<u8>, i: int, entry: (u64, Seq<u64>))
    requires
        has_at(s, i, entry_text(entry)),
    ensures
        entry_at(s, i) == Some((entry, i + entry_text(entry).len())),
        entry_text(entry).len() > 0,
        byte_at(s, i, QUOTE),
{
    reveal_strlit("\":[");
    let guild = decimal(entry.0 as nat);
    let colon = ascii("\":["@);
    let roles = roles_text(entry.1);
    let t1 = seq![QUOTE] + guild;
    let t2 = t1 + colon;
    let t3 = t2 + roles;
    assert(entry_text(entry) == t3 + seq![CLOSE_BRACKET]);
    lemma_has_at_split(s, i, t3, seq![CLOSE_BRACKET]);
    lemma_has_at_split(s, i, t2, roles);
    lemma_has_at_split(s, i, t1, colon);
    lemma_has_at_split(s, i, seq![QUOTE], guild);
    lemma_has_at_first(s, i, seq![QUOTE]);
    lemma_has_at_first(s, i + t1.len(), colon);
    assert(colon[0] == 34u8);
    lemma_number_at(s, i + 1, entry.0);
    lemma_has_at_first(s, i + t3.len(), seq![CLOSE_BRACKET]);
    assert(colon.len() == 3);
    lemma_roles_at(s, i + t2.len(), entry.1);
}

/// The text of the guilds after the first is read as these guilds.
pub proof fn lemma_more_entries(
    s: Seq<u8>,
    i: int,
    acc: Seq<(u64, Seq<u64>)>,
    rest: Seq<(u64, Seq<u64>)>,
)
    requires
        has_at(s, i, entries_tail(rest)),
        byte_at(s, i + entries_tail(rest).len(), CLOSE_BRACE),
    ensures
        more_entries(s, i, acc) == Some((acc + rest, i + entries_tail(rest).len())),
    decreases rest.len(),
{
    if rest.len() == 0 {
        assert(acc + rest =~= acc);
    } else {
        let first = entry_text(rest[0]);
        let tail = entries_tail(rest.drop_first());
        assert(entries_tail(rest) == (seq![COMMA] + first) + tail);
        lemma_has_at_split(s, i, seq![COMMA] + first, tail);
        lemma_has_at_split(s, i, seq![COMMA], first);
        lemma_has_at_first(s, i, seq![COMMA]);
        lemma_entry_at(s, i + 1, rest[0]);
        lemma_more_entries(s, i + 1 + first.len(), acc.push(rest[0]), rest.drop_first());
        assert(acc.push(rest[0]) + rest.drop_first() =~= acc + rest);
    }
}

/// The text of the grants, with the closing brace behind it, is read as
/// these grants.
pub proof fn lemma_entries_at(s: Seq<u8>, i: int, entries: Seq<(u64, Seq<u64>)>)
    requires
        has_at(s, i, entries_text(entries)),
        byte_at(s, i + entries_text(entries).len(), CLOSE_BRACE),
    ensures
        entries_at(s, i) == Some((entries, i + entries_text(entries).len())),
{
    if entries.len() > 0 {
        let first = entry_text(entries[0]);
        let tail = entries_tail(entries.drop_first());
        lemma_has_at_split(s, i, first, tail);
        lemma_entry_at(s, i, entries[0]);
        lemma_more_entries(s, i + first.len(), seq![entries[0]], entries.drop_first());
        assert(seq![entries[0]] + entries.drop_first() =~= entries);
    } else {
        assert(entries =~= Seq::<(u64, Seq<u64>)>::empty());
    }
}

/// A number behind its label, with `follower` as the next byte, is read as
/// that number.
pub proof fn lemma_field_at(s: Seq<u8>, i: int, label: Seq<u8>, n: u64, follower: u8)
    requires
        has_at(s, i, label),
        has_at(s, i + label.len(), decimal(n as nat)),
        byte_at(s, i + label.len() + decimal(n as nat).len(), follower),
        !is_digit(follower),
    ensures
        field_at(s, i, label) == Some((n, i + label.len() + decimal(n as nat).len())),
{
    lemma_number_at(s, i + label.len(), n);
}

/// The payload of some claims is read as these claims: nothing is lost or
/// changed between writing and reading.
pub proof fn lemma_claims_round_trip(claims: ClaimsView)
    ensures
        claims_of_text(claims_text(claims)) == Some(claims),
{
    reveal_strlit("{\"iat\":");
    reveal_strlit(",\"exp\":");
    reveal_strlit(",\"uid\":");
    reveal_strlit(",\"grants\":{");
    reveal_strlit("}}");
    let s = claims_text(claims);
    let l1 = ascii("{\"iat\":"@);
    let l2 = ascii(",\"exp\":"@);
    let l3 = ascii(",\"uid\":"@);
    let l4 = ascii(",\"grants\":{"@);
    let l5 = ascii("}}"@);
    let d1 = decimal(claims.iat as nat);
    let d2 = decimal(claims.exp as nat);
    let d3 = decimal(claims.uid as nat);
    let body = entries_text(claims.grants);
    let t1 = l1 + d1;
    let t2 = t1 + l2;
    let t3 = t2 + d2;
    let t4 = t3 + l3;
    let t5 = t4 + d3;
    let t6 = t5 + l4;
    let t7 = t6 + body;
    assert(s == t7 + l5);
    assert(s.subrange(0, s.len() as int) =~= s);
    assert(has_at(s, 0, t7 + l5));
    lemma_has_at_split(s, 0, t7, l5);
    lemma_has_at_split(s, 0, t6, body);
    lemma_has_at_split(s, 0, t5, l4);
    lemma_has_at_split(s, 0, t4, d3);
    lemma_has_at_split(s, 0, t3, l3);
    lemma_has_at_split(s, 0, t2, d2);
    lemma_has_at_split(s, 0, t1, l2);
    lemma_has_at_first(s, t1.len() as int, l2);
    lemma_has_at_first(s, t3.len() as int, l3);
    lemma_has_at_first(s, t5.len() as int, l4);
    lemma_has_at_first(s, t7.len() as int, l5);
    assert(l2[0] == COMMA && l3[0] == COMMA && l4[0] == COMMA && l5[0] == CLOSE_BRACE);
    lemma_has_at_split(s, 0, l1, d1);
    lemma_field_at(s, 0, l1, claims.iat, COMMA);
    lemma_field_at(s, t1.len() as int, l2, claims.exp, COMMA);
    lemma_field_at(s, t3.len() as int, l3, claims.uid, COMMA);
    assert(l4.len() == 11);
    lemma_entries_at(s, t6.len() as int, claims.grants);
}

/// One more role at the end adds a comma and its number to the text.
proof fn lemma_roles_tail_push(roles: Seq<u64>, role: u64)
    ensures
        roles_tail(roles.push(role)) == roles_tail(roles) + seq![COMMA] + decimal(role as nat),
    decreases roles.len(),
{
    let longer = roles.push(role);
    if roles.len() == 0 {
        assert(longer.drop_first() =~= Seq::<u64>::empty());
        assert(longer[0] == role);
        assert(roles_tail(longer.drop_first()) =~= Seq::<u8>::empty());
        assert(roles_tail(longer) =~= roles_tail(roles) + seq![COMMA] + decimal(role as nat));
    } else {
        assert(longer.drop_first() =~= roles.drop_first().push(role));
        lemma_roles_tail_push(roles.drop_first(), role);
        assert(longer[0] == roles[0]);
        let head = seq![COMMA] + decimal(roles[0] as nat);
        let rest = roles_tail(roles.drop_first());
        let last = seq![COMMA] + decimal(role as nat);
        assert(roles_tail(longer) == head + roles_tail(longer.drop_first()));
        assert(roles_tail(roles) == head + rest);
        assert(head + (rest + seq![COMMA] + decimal(role as nat)) =~= (head + rest) + seq![COMMA]
            + decimal(role as nat));
    }
}

/// One more guild at the end adds a comma and its text to the text.
proof fn lemma_entries_tail_push(entries: Seq<(u64, Seq<u64>)>, entry: (u64, Seq<u64>))
    ensures
        entries_tail(entries.push(entry)) == entries_tail(entries) + seq![COMMA] + entry_text(
            entry,
        ),
    decreases entries.len(),
{
    let longer = entries.push(entry);
    if entries.len() == 0 {
        assert(longer.drop_first() =~= Seq::<(u64, Seq<u64>)>::empty());
        assert(longer[0] == entry);
        assert(entries_tail(longer.drop_first()) =~= Seq::<u8>::empty());
        assert(entries_tail(longer) =~= entries_tail(entries) + seq![COMMA] + entry_text(entry));
    } else {
        assert(longer.drop_first() =~= entries.drop_first().push(entry));
        lemma_entries_tail_push(entries.drop_first(), entry);
        assert(longer[0] == entries[0]);
        let head = seq![COMMA] + entry_text(entries[0]);
        let rest = entries_tail(entries.drop_first());
        assert(entries_tail(longer) == head + entries_tail(longer.drop_first()));
        assert(entries_tail(entries) == head + rest);
        assert(head + (rest + seq![COMMA] + entry_text(entry)) =~= (head + rest) + seq![COMMA]
            + entry_text(entry));
    }
}

/// Appends a text of ASCII characters to `out`.
fn push_ascii(out: &mut Vec<u8>, text: &str)
    requires
        is_ascii_chars(text@),
    ensures
        final(out)@ == old(out)@ + ascii(text@),
{
    let bytes = text.as_bytes();
    out.extend_from_slice(bytes);
    proof {
        is_ascii_spec_bytes(text);
        assert(bytes@ =~= ascii(text@));
    }
}

/// Appends the text of a list of roles to `out`.
fn push_roles(out: &mut Vec<u8>, roles: &Vec<u64>)
    ensures
        final(out)@ == old(out)@ + roles_text(roles@),
{
    if roles.len() == 0 {
        assert(out@ =~= old(out)@ + roles_text(roles@));
        return ;
    }
    push_decimal(out, roles[0]);
    let mut k: usize = 1;
    assert(roles@.subrange(1, 1) =~= Seq::<u64>::empty());
    assert(out@ =~= old(out)@ + decimal(roles@[0] as nat) + roles_tail(roles@.subrange(1, 1)));
    while k < roles.len()
        invariant
            1 <= k <= roles@.len(),
            out@ == old(out)@ + decimal(roles@[0] as nat) + roles_tail(
                roles@.subrange(1, k as int),
            ),
        decreases roles@.len() - k,
    {
        let ghost before = out@;
        out.push(COMMA);
        push_decimal(out, roles[k]);
        proof {
            let done = roles@.subrange(1, k as int);
            assert(roles@.subrange(1, k + 1) =~= done.push(roles@[k as int]));
            lemma_roles_tail_push(done, roles@[k as int]);
            assert(out@ =~= before + seq![COMMA] + decimal(roles@[k as int] as nat));
            assert(out@ =~= old(out)@ + decimal(roles@[0] as nat) + roles_tail(
                roles@.subrange(1, k + 1),
            ));
        }
        k = k + 1;
    }
    assert(roles@.subrange(1, k as int) =~= roles@.drop_first());
}

/// Appends the text of the roles of one guild to `out`.
fn push_entry(out: &mut Vec<u8>, guild: u64, roles: &Vec<u64>)
    ensures
        final(out)@ == old(out)@ + entry_text((guild, roles@)),
{
    proof {
        reveal_strlit("\":[");
    }
    out.push(QUOTE);
    push_decimal(out, guild);
    push_ascii(out, "\":[");
    push_roles(out, roles);
    out.push(CLOSE_BRACKET);
    assert(out@ =~= old(out)@ + entry_text((guild, roles@)));
}

/// Appends the text of the grants to `out`.
fn push_entries(out: &mut Vec<u8>, entries: &Vec<(u64, Vec<u64>)>)
    ensures
        final(out)@ == old(out)@ + entries_text(entry_views(entries@)),
{
    let ghost views = entry_views(entries@);
    if entries.len() == 0 {
        assert(out@ =~= old(out)@ + entries_text(views));
        return ;
    }
    push_entry(out, entries[0].0, &entries[0].1);
    let mut k: usize = 1;
    assert(views.subrange(1, 1) =~= Seq::<(u64, Seq<u64>)>::empty());
    assert(out@ =~= old(out)@ + entry_text(views[0]) + entries_tail(views.subrange(1, 1)));
    while k < entries.len()
        invariant
            1 <= k <= entries@.len(),
            views == entry_views(entries@),
            out@ == old(out)@ + entry_text(views[0]) + entries_tail(views.subrange(1, k as int)),
        decreases entries@.len() - k,
    {
        let ghost before = out@;
        out.push(COMMA);
        push_entry(out, entries[k].0, &entries[k].1);
        proof {
            let done = views.subrange(1, k as int);
            assert(views.subrange(1, k + 1) =~= done.push(views[k as int]));
            lemma_entries_tail_push(done, views[k as int]);
            assert(out@ =~= before + seq![COMMA] + entry_text(views[k as int]));
            assert(out@ =~= old(out)@ + entry_text(views[0]) + entries_tail(
                views.subrange(1, k + 1),
            ));
        }
        k = k + 1;
    }
    assert(views.subrange(1, k as int) =~= views.drop_first());
}

/// Writes the payload of a token.
pub fn write_claims(claims: &Claims) -> (res: Vec<u8>)
    ensures
        res@ == claims_text(claims@),
{
    proof {
        reveal_strlit("{\"iat\":");
        reveal_strlit(",\"exp\":");
        reveal_strlit(",\"uid\":");
        reveal_strlit(",\"grants\":{");
        reveal_strlit("}}");
    }
    let mut out: Vec<u8> = Vec::new();
    push_ascii(&mut out, "{\"iat\":");
    push_decimal(&mut out, claims.iat);
    push_ascii(&mut out, ",\"exp\":");
    push_decimal(&mut out, claims.exp);
    push_ascii(&mut out, ",\"uid\":");
    push_decimal(&mut out, claims.uid);
    push_ascii(&mut out, ",\"grants\":{");
    push_entries(&mut out, &claims.grants);
    push_ascii(&mut out, "}}");
    assert(out@ =~= claims_text(claims@));
    out
}

/// Whether the byte `b` stands at position `at`.
fn is_byte(bytes: &[u8], at: usize, b: u8) -> (res: bool)
    ensures
        res == byte_at(bytes@, at as int, b),
{
    at < bytes.len() && bytes[at] == b
}

/// Whether a text of ASCII characters stands at position `at`.
fn is_text(bytes: &[u8], at: usize, text: &str) -> (res: bool)
    requires
        is_ascii_chars(text@),
    ensures
        res == has_at(bytes@, at as int, ascii(text@)),
{
    let wanted = text.as_bytes();
    proof {
        is_ascii_spec_bytes(text);
        assert(wanted@ =~= ascii(text@));
    }
    if at > bytes.len() || wanted.len() > bytes.len() - at {
        return false;
    }
    let mut k: usize = 0;
    while k < wanted.len()
        invariant
            k <= wanted@.len(),
            at + wanted@.len() <= bytes@.len(),
            bytes@.len() == bytes.len(),
            wanted@ == ascii(text@),
            forall|j: int| 0 <= j < k ==> bytes@[at + j] == wanted@[j],
        decreases wanted@.len() - k,
    {
        if bytes[at + k] != wanted[k] {
            assert(bytes@.subrange(at as int, at + wanted@.len())[k as int] == bytes@[at + k]);
            return false;
        }
        k = k + 1;
    }
    assert(bytes@.subrange(at as int, at + wanted@.len()) =~= wanted@);
    true
}

/// Reads a list of roles from position `at`, behind the opening bracket.
fn read_roles(bytes: &[u8], at: usize) -> (res: Option<(Vec<u64>, usize)>)
    requires
        at <= bytes@.len(),
    ensures
        match res {
            Some((roles, end)) => roles_at(bytes@, at as int) == Some((roles@, end as int)) && at
                <= end <= bytes@.len(),
            None => roles_at(bytes@, at as int) is None,
        },
{
    let mut roles: Vec<u64> = Vec::new();
    if is_byte(bytes, at, CLOSE_BRACKET) {
        return Some((roles, at));
    }
    let mut i: usize = match read_number(bytes, at) {
        Some((role, next)) => {
            roles.push(role);
            proof {
                lemma_digits_end_bounds(bytes@, at as int);
            }
            next
        },
        None => return None,
    };
    assert(roles@ =~= seq![roles@[0]]);
    while is_byte(bytes, i, COMMA)
        invariant
            at <= i <= bytes@.len(),
            roles_at(bytes@, at as int) == more_roles(bytes@, i as int, roles@),
        decreases bytes@.len() - i,
    {
        assert(i < bytes.len());
        match read_number(bytes, i + 1) {
            Some((role, next)) => {
                proof {
                    lemma_digits_end_bounds(bytes@, i + 1);
                }
                roles.push(role);
                i = next;
            },
            None => return None,
        }
    }
    Some((roles, i))
}

/// Reads the roles of one guild from position `at`.
fn read_entry(bytes: &[u8], at: usize) -> (res: Option<((u64, Vec<u64>), usize)>)
    requires
        at <= bytes@.len(),
    ensures
        match res {
            Some((entry, end)) => entry_at(bytes@, at as int) == Some(
                ((entry.0, entry.1@), end as int),
            ) && at < end <= bytes@.len(),
            None => entry_at(bytes@, at as int) is None,
        },
{
    proof {
        reveal_strlit("\":[");
    }
    if !is_byte(bytes, at, QUOTE) {
        return None;
    }
    assert(at < bytes.len());
    let (guild, colon) = match read_number(bytes, at + 1) {
        Some(found) => found,
        None => return None,
    };
    proof {
        lemma_digits_end_bounds(bytes@, at + 1);
    }
    if !is_text(bytes, colon, "\":[") {
        return None;
    }
    assert(ascii("\":["@).len() == 3 && colon + 3 <= bytes.len());
    let (roles, end) = match read_roles(bytes, colon + 3) {
        Some(found) => found,
        None => return None,
    };
    if !is_byte(bytes, end, CLOSE_BRACKET) {
        return None;
    }
    assert(end < bytes.len());
    Some(((guild, roles), end + 1))
}

/// Reads the grants from position `at`, behind the opening brace.
fn read_entries(bytes: &[u8], at: usize) -> (res: Option<(Vec<(u64, Vec<u64>)>, usize)>)
    requires
        at <= bytes@.len(),
    ensures
        match res {
            Some((entries, end)) => entries_at(bytes@, at as int) == Some(
                (entry_views(entries@), end as int),
            ) && at <= end <= bytes@.len(),
            None => entries_at(bytes@, at as int) is None,
        },
{
    let mut entries: Vec<(u64, Vec<u64>)> = Vec::new();
    if is_byte(bytes, at, CLOSE_BRACE) {
        assert(entry_views(entries@) =~= Seq::<(u64, Seq<u64>)>::empty());
        return Some((entries, at));
    }
    let mut i: usize = match read_entry(bytes, at) {
        Some((entry, next)) => {
            entries.push(entry);
            next
        },
        None => return None,
    };
    assert(entry_views(entries@) =~= seq![entry_views(entries@)[0]]);
    while is_byte(bytes, i, COMMA)
        invariant
            at <= i <= bytes@.len(),
            entries_at(bytes@, at as int) == more_entries(
                bytes@,
                i as int,
                entry_views(entries@),
            ),
        decreases bytes@.len() - i,
    {
        assert(i < bytes.len());
        match read_entry(bytes, i + 1) {
            Some((entry, next)) => {
                let ghost before = entry_views(entries@);
                let ghost added = (entry.0, entry.1@);
                entries.push(entry);
                assert(entry_views(entries@) =~= before.push(added));
                i = next;
            },
            None => return None,
        }
    }
    Some((entries, i))
}

/// Reads the number behind the label `label` that stands at position `at`.
fn read_field(bytes: &[u8], at: usize, label: &str) -> (res: Option<(u64, usize)>)
    requires
        is_ascii_chars(label@),
    ensures
        match res {
            Some((n, end)) => field_at(bytes@, at as int, ascii(label@)) == Some((n, end as int))
                && end <= bytes@.len(),
            None => field_at(bytes@, at as int, ascii(label@)) is None,
        },
{
    if !is_text(bytes, at, label) {
        return None;
    }
    let text = label.as_bytes();
    let width: usize = text.len();
    proof {
        is_ascii_spec_bytes(label);
        assert(text@ =~= ascii(label@));
        assert(at + width <= bytes.len());
        lemma_digits_end_bounds(bytes@, at + width);
    }
    read_number(bytes, at + width)
}

/// Reads the claims from the payload of a token.
pub fn read_claims(bytes: &[u8]) -> (res: Option<Claims>)
    ensures
        match res {
            Some(claims) => claims_of_text(bytes@) == Some(claims@),
            None => claims_of_text(bytes@) is None,
        },
{
    proof {
        reveal_strlit("{\"iat\":");
        reveal_strlit(",\"exp\":");
        reveal_strlit(",\"uid\":");
        reveal_strlit(",\"grants\":{");
        reveal_strlit("}}");
    }
    let (iat, i1) = match read_field(bytes, 0, "{\"iat\":") {
        Some(found) => found,
        None => return None,
    };
    let (exp, i2) = match read_field(bytes, i1, ",\"exp\":") {
        Some(found) => found,
        None => return None,
    };
    let (uid, i3) = match read_field(bytes, i2, ",\"uid\":") {
        Some(found) => found,
        None => return None,
    };
    if !is_text(bytes, i3, ",\"grants\":{") {
        return None;
    }
    assert(ascii(",\"grants\":{"@).len() == 11 && i3 + 11 <= bytes.len());
    let (grants, i4) = match read_entries(bytes, i3 + 11) {
        Some(found) => found,
        None => return None,
    };
    if !is_text(bytes, i4, "}}") {
        return None;
    }
    assert(ascii("}}"@).len() == 2 && i4 + 2 <= bytes.len());
    if i4 + 2 != bytes.len() {
        return None;
    }
    Some(Claims { iat, exp, uid, grants })
}

} // verus!
