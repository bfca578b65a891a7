//! Signed tokens: a token is a JSON Web Token in compact form, signed with
//! HMAC-SHA512. Its payload holds the user it was issued for, when it
//! expires, and the roles it gives.

use vstd::prelude::*;
use vstd::string::{is_ascii_spec_bytes, StrSliceExecFns, StringExecFns};
use vstd::std_specs::iter::IteratorSpec;
use vstd::utf8::{encode_utf8, is_ascii_chars};
use std::collections::HashMap;
use crate::b64::{base64url_bytes, base64url_text, decode_url, encode_url, is_base64url};
use crate::claims::{
    ascii, claims_of_text, claims_text, entry_views, lemma_claims_round_trip, read_claims,
    write_claims, Claims, ClaimsView,
};
use crate::grants::{role_seqs, UserGrants};

verus! {

broadcast use vstd::std_specs::hash::group_hash_axioms;

/// The error of the `jsonwebtoken` crate.
#[verifier::external_type_specification]
#[verifier::external_body]
pub struct ExTokenError(jsonwebtoken::errors::Error);

/// A point in time of the system clock.
#[verifier::external_type_specification]
#[verifier::external_body]
pub struct ExSystemTime(std::time::SystemTime);

/// The error of a clock that went backwards.
#[verifier::external_type_specification]
#[verifier::external_body]
pub struct ExSystemTimeError(std::time::SystemTimeError);

/// The signature of a message under a key: the HMAC-SHA512 of the message,
/// as a text in URL-safe base64 without padding.
pub uninterp spec fn hs512_signature(message: Seq<u8>, key: Seq<u8>) -> Seq<char>;

/// Why no token was issued.
#[derive(Debug, Clone, Copy, PartialEq, Eq, Structural)]
pub enum IssueError {
    /// The system clock gave no time.
    ClockUnavailable,
    /// The token would expire after the last second that 64 bits can hold.
    LifetimeTooLong,
    /// The signer refused the message. For HMAC it has no reason to.
    Signing,
}

/// Why a token was refused.
#[derive(Debug, Clone, Copy, PartialEq, Eq, Structural)]
pub enum VerifyError {
    /// The token is not one that was signed with the key.
    Invalid,
    /// The token has expired.
    Expired,
    /// The token was issued for another user, the one named here.
    WrongPrincipal(u64),
    /// The system clock gave no time.
    ClockUnavailable,
}

/// The number of seconds in a minute.
pub const MINUTE: u64 = 60;

/// The header of every token, as JSON.
pub open spec fn header_text() -> Seq<u8> {
    ascii("{\"typ\":\"JWT\",\"alg\":\"HS512\"}"@)
}

/// The part of a token that is signed: the header and the payload, each in
/// base64, with a dot between them.
pub open spec fn signing_input(claims: ClaimsView) -> Seq<char> {
    base64url_text(header_text()) + seq!['.'] + base64url_text(claims_text(claims))
}

/// The token that carries `claims`, signed with `key`.
pub open spec fn token_text(claims: ClaimsView, key: Seq<u8>) -> Seq<char> {
    signing_input(claims) + seq!['.'] + hs512_signature(encode_utf8(signing_input(claims)), key)
}

/// The position of the first dot of `s` at or behind `from`; the length of
/// `s` where there is none.
pub open spec fn first_dot(s: Seq<char>, from: int) -> int
    decreases s.len() - from,
{
    if from < 0 || from >= s.len() {
        s.len() as int
    } else if s[from] == '.' {
        from
    } else {
        first_dot(s, from + 1)
    }
}

/// The position of the second dot of a text; its length where it has
/// fewer than two.
pub open spec fn second_dot(token: Seq<char>) -> int {
    first_dot(token, first_dot(token, 0) + 1)
}

/// Whether a text has the two dots that part a token in three.
pub open spec fn has_three_parts(token: Seq<char>) -> bool {
    second_dot(token) < token.len()
}

/// The header of a token: what stands before the first dot.
pub open spec fn header_part(token: Seq<char>) -> Seq<char> {
    token.subrange(0, first_dot(token, 0))
}

/// The payload of a token: what stands between the first dot and the
/// second.
pub open spec fn payload_part(token: Seq<char>) -> Seq<char> {
    token.subrange(first_dot(token, 0) + 1, second_dot(token))
}

/// The part of a token that is signed: what stands before the second dot.
pub open spec fn signed_part(token: Seq<char>) -> Seq<char> {
    token.subrange(0, second_dot(token))
}

/// The signature of a token: what stands behind the second dot.
pub open spec fn signature_part(token: Seq<char>) -> Seq<char> {
    token.subrange(second_dot(token) + 1, token.len() as int)
}

/// The claims of a token that was signed with `key`; `None` for every other
/// text. A token is ASCII text in three parts. The third is the signature of
/// the other two with their dot, the first is the header in base64, the
/// second the payload in base64.
pub open spec fn token_claims(token: Seq<char>, key: Seq<u8>) -> Option<ClaimsView> {
    if !is_ascii_chars(token) || !has_three_parts(token) {
        None
    } else if signature_part(token) != hs512_signature(encode_utf8(signed_part(token)), key) {
        None
    } else if header_part(token) != base64url_text(header_text()) {
        None
    } else {
        match base64url_bytes(payload_part(token)) {
            Some(payload) => claims_of_text(payload),
            None => None,
        }
    }
}

/// The map that a payload's grants stand for: where a guild comes twice,
/// its last roles count.
pub open spec fn entries_map(entries: Seq<(u64, Seq<u64>)>) -> Map<u64, Seq<u64>>
    decreases entries.len(),
{
    if entries.len() == 0 {
        Map::empty()
    } else {
        entries_map(entries.drop_last()).insert(entries.last().0, entries.last().1)
    }
}

/// What the user `uid` gets for the claims of a token at the time `now`:
/// the expiry is judged before the user.
pub open spec fn claims_outcome(claims: ClaimsView, uid: u64, now: u64) -> Result<
    Map<u64, Seq<u64>>,
    VerifyError,
> {
    if now >= claims.exp {
        Err(VerifyError::Expired)
    } else if claims.uid != uid {
        Err(VerifyError::WrongPrincipal(claims.uid))
    } else {
        Ok(entries_map(claims.grants))
    }
}

/// What the user `uid` gets for a token at the time `now`: the signature is
/// judged first, then the expiry, then the user.
pub open spec fn verify_outcome(uid: u64, token: Seq<char>, key: Seq<u8>, now: u64) -> Result<
    Map<u64, Seq<u64>>,
    VerifyError,
> {
    match token_claims(token, key) {
        None => Err(VerifyError::Invalid),
        Some(claims) => claims_outcome(claims, uid, now),
    }
}

/// Whether a text has the shape of a token: three parts that are not empty
/// and made of the URL-safe base64 alphabet, with a dot behind the first and
/// behind the second, the first of them the header of every token in base64.
pub open spec fn is_compact(token: Seq<char>) -> bool {
    &&& has_three_parts(token)
    &&& header_part(token).len() > 0 && is_base64url(header_part(token))
    &&& payload_part(token).len() > 0 && is_base64url(payload_part(token))
    &&& signature_part(token).len() > 0 && is_base64url(signature_part(token))
    &&& header_part(token) == base64url_text(header_text())
    &&& base64url_bytes(header_part(token)) == Some(header_text())
}

/// Whether `entries` lists the guilds of `roles`, each once and with its
/// roles, in some order.
pub open spec fn is_listing(entries: Seq<(u64, Seq<u64>)>, roles: Map<u64, Seq<u64>>) -> bool {
    &&& forall|i: int, j: int|
        0 <= i < j < entries.len() ==> (#[trigger] entries[i]).0 != (#[trigger] entries[j]).0
    &&& forall|i: int|
        0 <= i < entries.len() ==> roles.contains_key((#[trigger] entries[i]).0) && roles[entries[i].0]
            == entries[i].1
    &&& forall|guild: u64| #[trigger]
        roles.contains_key(guild) ==> exists|i: int| 0 <= i < entries.len() && (#[trigger] entries[i]).0 == guild
}

/// Whether `token` is a token for `uid` with the roles `roles`, issued at
/// `now` for `lifetime` minutes and signed with `key`.
pub open spec fn is_token_for(
    token: Seq<char>,
    uid: u64,
    roles: Map<u64, Seq<u64>>,
    key: Seq<u8>,
    lifetime: u64,
    now: u64,
) -> bool {
    &&& now + MINUTE * lifetime <= u64::MAX
    &&& exists|entries: Seq<(u64, Seq<u64>)>|
        is_listing(entries, roles) && token == #[trigger] token_text(
            ClaimsView { iat: now, exp: (now + MINUTE * lifetime) as u64, uid, grants: entries },
            key,
        )
}

/// What a token that was issued at `now` for `lifetime` minutes is worth:
/// from its expiry on nobody gets anything for it; before that another user
/// is told whom it is for, and the user it is for gets the roles back as they
/// were given.
pub open spec fn redeems_as_issued(
    token: Seq<char>,
    uid: u64,
    roles: Map<u64, Seq<u64>>,
    key: Seq<u8>,
    lifetime: u64,
    now: u64,
) -> bool {
    forall|who: u64, at: u64| #[trigger]
        verify_outcome(who, token, key, at) == (if at >= now + MINUTE * lifetime {
            Err::<Map<u64, Seq<u64>>, VerifyError>(VerifyError::Expired)
        } else if who != uid {
            Err(VerifyError::WrongPrincipal(uid))
        } else {
            Ok(roles)
        })
}

/// The length of a signature: that of the base64 text of the 64 bytes of
/// an HMAC-SHA512.
pub const SIGNATURE_LEN: usize = 86;

/// Calls `jsonwebtoken::crypto::sign` with the algorithm HS512 and `key` as
/// the secret. The contract names the signature. It says that the call
/// succeeds and that the signature is base64 text of 86 characters: for this
/// algorithm the crate encodes the 64 bytes of the HMAC in URL-safe base64
/// without padding and returns the text.
#[verifier::external_body]
fn sign_hs512(message: &[u8], key: &[u8]) -> (res: Result<String, jsonwebtoken::errors::Error>)
    ensures
        res is Ok,
        res matches Ok(signature) ==> signature@ == hs512_signature(message@, key@),
        res matches Ok(signature) ==> is_base64url(signature@),
        res matches Ok(signature) ==> signature@.len() == SIGNATURE_LEN,
{
    jsonwebtoken::crypto::sign(
        message,
        &jsonwebtoken::EncodingKey::from_secret(key),
        jsonwebtoken::Algorithm::HS512,
    )
}

/// Calls `jsonwebtoken::crypto::verify` with the algorithm HS512 and `key`
/// as the secret. For this algorithm the crate signs the message again and
/// compares the two signatures in constant time: the call succeeds, and says
/// whether `signature` is the signature of the message.
#[verifier::external_body]
fn verify_hs512(signature: &str, message: &[u8], key: &[u8]) -> (res: Result<
    bool,
    jsonwebtoken::errors::Error,
>)
    ensures
        res is Ok,
        res matches Ok(same) ==> same == (signature@ == hs512_signature(message@, key@)),
{
    jsonwebtoken::crypto::verify(
        signature,
        message,
        &jsonwebtoken::DecodingKey::from_secret(key),
        jsonwebtoken::Algorithm::HS512,
    )
}

/// Calls `SystemTime::now`: the time of the system clock.
#[verifier::external_body]
fn system_now() -> std::time::SystemTime {
    std::time::SystemTime::now()
}

/// Calls `SystemTime::duration_since` with the epoch: the time that has
/// passed since, or an error where `time` lies before the epoch.
#[verifier::external_body]
fn since_epoch(time: &std::time::SystemTime) -> Result<
    std::time::Duration,
    std::time::SystemTimeError,
> {
    time.duration_since(std::time::UNIX_EPOCH)
}

/// Calls `Duration::as_secs`: the whole seconds of a duration.
#[verifier::external_body]
fn whole_seconds(duration: &std::time::Duration) -> u64 {
    duration.as_secs()
}

/// The time of the system clock in seconds since the epoch; `None` where the
/// clock stands before the epoch.
pub fn unix_time() -> Option<u64> {
    let now = system_now();
    match since_epoch(&now) {
        Ok(passed) => Some(whole_seconds(&passed)),
        Err(_) => None,
    }
}

/// A dot that no dot stands before is the first one.
proof fn lemma_first_dot(s: Seq<char>, from: int, dot: int)
    requires
        0 <= from <= dot < s.len(),
        s[dot] == '.',
        forall|k: int| from <= k < dot ==> s[k] != '.',
    ensures
        first_dot(s, from) == dot,
    decreases dot - from,
{
    if from < dot {
        lemma_first_dot(s, from + 1, dot);
    }
}

/// The map of a listing of `roles` is `roles`.
proof fn lemma_listing_map(entries: Seq<(u64, Seq<u64>)>, roles: Map<u64, Seq<u64>>)
    requires
        is_listing(entries, roles),
    ensures
        entries_map(entries) == roles,
{
    lemma_entries_map(entries);
    assert(entries_map(entries) =~= roles) by {
        assert forall|guild: u64| entries_map(entries).contains_key(guild) implies roles.contains_key(
            guild,
        ) && roles[guild] == entries_map(entries)[guild] by {
            let i = choose|i: int|
                0 <= i < entries.len() && (#[trigger] entries[i]).0 == guild && entries_map(
                    entries,
                )[guild] == entries[i].1;
        }
        assert forall|guild: u64| roles.contains_key(guild) implies entries_map(
            entries,
        ).contains_key(guild) by {
            let i = choose|i: int| 0 <= i < entries.len() && (#[trigger] entries[i]).0 == guild;
        }
    }
}

/// The map of some entries has the guilds of the entries, each with the
/// roles of one of its entries.
proof fn lemma_entries_map(entries: Seq<(u64, Seq<u64>)>)
    ensures
        forall|guild: u64| #[trigger]
            entries_map(entries).contains_key(guild) <==> exists|i: int|
                0 <= i < entries.len() && (#[trigger] entries[i]).0 == guild,
        forall|guild: u64| #[trigger]
            entries_map(entries).contains_key(guild) ==> exists|i: int|
                0 <= i < entries.len() && (#[trigger] entries[i]).0 == guild && entries_map(
                    entries,
                )[guild] == entries[i].1,
    decreases entries.len(),
{
    if entries.len() > 0 {
        let front = entries.drop_last();
        let last = entries.last();
        let n = entries.len() - 1;
        lemma_entries_map(front);
        assert(entries[n] == last);
        assert forall|guild: u64| #[trigger]
            entries_map(entries).contains_key(guild) implies exists|i: int|
            0 <= i < entries.len() && (#[trigger] entries[i]).0 == guild && entries_map(
                entries,
            )[guild] == entries[i].1 by {
            if guild == last.0 {
                assert(entries[n].0 == guild);
            } else {
                assert(entries_map(front).contains_key(guild));
                let i = choose|i: int|
                    0 <= i < front.len() && (#[trigger] front[i]).0 == guild && entries_map(
                        front,
                    )[guild] == front[i].1;
                assert(entries[i] == front[i]);
            }
        }
        assert forall|guild: u64|
            (exists|i: int|
                0 <= i < entries.len() && (#[trigger] entries[i]).0 == guild) implies #[trigger]
            entries_map(entries).contains_key(guild) by {
            let i = choose|i: int| 0 <= i < entries.len() && (#[trigger] entries[i]).0 == guild;
            if i < n {
                assert(front[i] == entries[i]);
                assert(front[i].0 == guild);
                assert(entries_map(front).contains_key(guild));
            } else {
                assert(last.0 == guild);
            }
        }
    }
}

/// The roles of a user as a list: each guild once with its roles, in the
/// order in which the map hands its guilds out.
pub fn entries_of(grants: &UserGrants) -> (res: Vec<(u64, Vec<u64>)>)
    ensures
        is_listing(entry_views(res@), role_seqs(grants@)),
{
    let mut out: Vec<(u64, Vec<u64>)> = Vec::new();
    for guild in it: grants.keys()
        invariant
            out@.len() == it.index(),
            it.seq() == grants.keys().remaining(),
            forall|j: int| 0 <= j < out@.len() ==> (#[trigger] out@[j]).0 == *it.seq()[j],
            forall|j: int|
                0 <= j < out@.len() ==> grants@.contains_key((#[trigger] out@[j]).0) && out@[j].1@
                    == grants@[out@[j].0]@,
    {
        proof {
            let all = grants.keys().remaining();
            assert(all.unref()[it.index()] == *guild);
            assert(all.unref().to_set().contains(*guild));
        }
        let roles: Vec<u64> = match grants.get(guild) {
            Some(held) => held.clone(),
            None => Vec::new(),
        };
        out.push((*guild, roles));
    }
    proof {
        let all = grants.keys().remaining();
        let entries = entry_views(out@);
        assert forall|i: int, j: int| 0 <= i < j < entries.len() implies (#[trigger] entries[i]).0
            != (#[trigger] entries[j]).0 by {
            assert(out@[i].0 == *all[i] && out@[j].0 == *all[j]);
            assert(all[i] != all[j]);
        }
        assert forall|g: u64| #[trigger] role_seqs(grants@).contains_key(g) implies exists|i: int|
            0 <= i < entries.len() && (#[trigger] entries[i]).0 == g by {
            assert(all.unref().to_set().contains(g));
            let i = choose|i: int| 0 <= i < all.unref().len() && all.unref()[i] == g;
            assert(out@[i].0 == *all[i]);
            assert(entries[i].0 == g);
        }
    }
    out
}

/// The map that a list of roles stands for.
fn grants_of(entries: &Vec<(u64, Vec<u64>)>) -> (res: UserGrants)
    ensures
        role_seqs(res@) == entries_map(entry_views(entries@)),
{
    let ghost views = entry_views(entries@);
    let mut grants: UserGrants = HashMap::new();
    let mut i: usize = 0;
    assert(views.take(0) =~= Seq::<(u64, Seq<u64>)>::empty());
    assert(role_seqs(grants@) =~= entries_map(views.take(0)));
    while i < entries.len()
        invariant
            i <= entries@.len(),
            views == entry_views(entries@),
            role_seqs(grants@) == entries_map(views.take(i as int)),
        decreases entries@.len() - i,
    {
        let ghost before = role_seqs(grants@);
        let roles = entries[i].1.clone();
        grants.insert(entries[i].0, roles);
        proof {
            assert(views.take(i + 1).drop_last() =~= views.take(i as int));
            assert(views.take(i + 1).last() == views[i as int]);
            assert(role_seqs(grants@) =~= before.insert(views[i as int].0, views[i as int].1));
        }
        i = i + 1;
    }
    assert(views.take(i as int) =~= views);
    grants
}

/// The position of the first dot of `text` at or behind `from`.
fn find_dot(text: &str, from: usize) -> (res: usize)
    requires
        is_ascii_chars(text@),
    ensures
        res == first_dot(text@, from as int),
        res <= text@.len(),
        res < text@.len() ==> from <= res && text@[res as int] == '.',
{
    let bytes = text.as_bytes();
    proof {
        is_ascii_spec_bytes(text);
        assert(bytes@ =~= ascii(text@));
    }
    let mut i: usize = from;
    while i < bytes.len()
        invariant
            from <= i,
            bytes@ == ascii(text@),
            bytes@.len() == bytes.len(),
            is_ascii_chars(text@),
            first_dot(text@, from as int) == first_dot(text@, i as int),
        decreases bytes@.len() - i,
    {
        if bytes[i] == 46 {
            assert(text@[i as int] == '.');
            return i;
        }
        assert(text@[i as int] != '.');
        i = i + 1;
    }
    bytes.len()
}

/// Issues the token for the user `uid` with the roles `grants`, signed with
/// `key`, at the time `now`, in seconds since the epoch, for `lifetime`
/// minutes. It fails only where the expiry does not fit in 64 bits.
pub fn issue_at(uid: u64, grants: &UserGrants, key: &[u8], lifetime: u64, now: u64) -> (res: Result<
    String,
    IssueError,
>)
    ensures
        res is Ok <==> now + MINUTE * lifetime <= u64::MAX,
        res is Err ==> res == Err::<String, IssueError>(IssueError::LifetimeTooLong),
        res matches Ok(token) ==> is_compact(token@),
        res matches Ok(token) ==> is_token_for(
            token@,
            uid,
            role_seqs(grants@),
            key@,
            lifetime,
            now,
        ),
        res matches Ok(token) ==> redeems_as_issued(
            token@,
            uid,
            role_seqs(grants@),
            key@,
            lifetime,
            now,
        ),
{
    let span: u64 = match lifetime.checked_mul(MINUTE) {
        Some(span) => span,
        None => return Err(IssueError::LifetimeTooLong),
    };
    let exp: u64 = match now.checked_add(span) {
        Some(exp) => exp,
        None => return Err(IssueError::LifetimeTooLong),
    };
    let claims = Claims { iat: now, exp, uid, grants: entries_of(grants) };
    let payload = write_claims(&claims);
    proof {
        reveal_strlit("{\"typ\":\"JWT\",\"alg\":\"HS512\"}");
        reveal_strlit(".");
        is_ascii_spec_bytes("{\"typ\":\"JWT\",\"alg\":\"HS512\"}");
    }
    let header_json = "{\"typ\":\"JWT\",\"alg\":\"HS512\"}".as_bytes();
    assert(header_json@ =~= header_text());
    let header = encode_url(header_json);
    let body = encode_url(payload.as_slice());
    let mut message = header.clone();
    message.append(".");
    message.append(body.as_str());
    let signature = match sign_hs512(message.as_str().as_bytes(), key) {
        Ok(signature) => signature,
        Err(_) => return Err(IssueError::Signing),
    };
    let mut token = message.clone();
    token.append(".");
    token.append(signature.as_str());
    proof {
        let t = token@;
        let d1 = header@.len() as int;
        let d2 = d1 + 1 + body@.len();
        assert("."@ =~= seq!['.']);
        assert(message@ =~= signing_input(claims@));
        assert(t =~= token_text(claims@, key@));
        assert forall|k: int| 0 <= k < t.len() implies '\0' <= #[trigger] t[k] <= '\u{7f}' by {
            if k < d1 {
                assert(t[k] == header@[k]);
            } else if k == d1 {
            } else if k < d2 {
                assert(t[k] == body@[k - d1 - 1]);
            } else if k == d2 {
            } else {
                assert(t[k] == signature@[k - d2 - 1]);
            }
        }
        assert forall|k: int| 0 <= k < d1 implies t[k] != '.' by {
            assert(t[k] == header@[k]);
        }
        assert forall|k: int| d1 + 1 <= k < d2 implies t[k] != '.' by {
            assert(t[k] == body@[k - d1 - 1]);
        }
        assert(t[d1] == '.' && t[d2] == '.');
        lemma_first_dot(t, 0, d1);
        lemma_first_dot(t, d1 + 1, d2);
        assert(t.subrange(d2 + 1, t.len() as int) =~= signature@);
        assert(t.subrange(0, d2) =~= message@);
        assert(t.subrange(0, d1) =~= header@);
        assert(t.subrange(d1 + 1, d2) =~= body@);
        lemma_claims_round_trip(claims@);
        assert(token_claims(t, key@) == Some(claims@));
        assert(header_json@.len() == 27 && payload@.len() >= 7) by {
            reveal_strlit("{\"iat\":");
        }
        assert(is_compact(t));
        lemma_listing_map(claims@.grants, role_seqs(grants@));
    }
    Ok(token)
}

/// Issues a token for the user `uid` with the roles `grants`, valid from now
/// on for `lifetime` minutes and signed with `key`. What it returns holds for
/// the time that the system clock gave.
pub fn jwt_encode(uid: u64, grants: &UserGrants, key: &[u8], lifetime: u64) -> (res: Result<
    String,
    IssueError,
>)
    ensures
        res matches Ok(token) ==> is_compact(token@),
        res matches Ok(token) ==> exists|now: u64|
            #![trigger is_token_for(token@, uid, role_seqs(grants@), key@, lifetime, now)]
            is_token_for(token@, uid, role_seqs(grants@), key@, lifetime, now) && redeems_as_issued(
                token@,
                uid,
                role_seqs(grants@),
                key@,
                lifetime,
                now,
            ),
        res matches Err(e) ==> e == IssueError::ClockUnavailable || (e == IssueError::LifetimeTooLong
            && lifetime > 0),
{
    match unix_time() {
        Some(now) => issue_at(uid, grants, key, lifetime, now),
        None => Err(IssueError::ClockUnavailable),
    }
}

/// Reads the claims of a token that was signed with `key`; `None` for a
/// text that is no such token.
fn open_token(jwt: &str, key: &[u8]) -> (res: Option<Claims>)
    ensures
        match res {
            Some(claims) => token_claims(jwt@, key@) == Some(claims@),
            None => token_claims(jwt@, key@) is None,
        },
{
    if !jwt.is_ascii() {
        return None;
    }
    let len: usize = jwt.as_bytes().len();
    proof {
        is_ascii_spec_bytes(jwt);
    }
    let d1: usize = find_dot(jwt, 0);
    if d1 >= len {
        return None;
    }
    let d2: usize = find_dot(jwt, d1 + 1);
    if d2 >= len {
        return None;
    }
    let message = jwt.substring_ascii(0, d2);
    let signature = jwt.substring_ascii(d2 + 1, len);
    match verify_hs512(signature, message.as_bytes(), key) {
        Ok(true) => {},
        _ => return None,
    }
    proof {
        reveal_strlit("{\"typ\":\"JWT\",\"alg\":\"HS512\"}");
        is_ascii_spec_bytes("{\"typ\":\"JWT\",\"alg\":\"HS512\"}");
    }
    let header_json = "{\"typ\":\"JWT\",\"alg\":\"HS512\"}".as_bytes();
    assert(header_json@ =~= header_text());
    let expected = encode_url(header_json);
    let header = jwt.substring_ascii(0, d1).to_owned();
    if header != expected {
        return None;
    }
    let payload = match decode_url(jwt.substring_ascii(d1 + 1, d2)) {
        Ok(bytes) => bytes,
        Err(_) => return None,
    };
    read_claims(payload.as_slice())
}

/// Judges the claims of a token for the user `uid` at the time `now`.
fn judge(claims: &Claims, uid: u64, now: u64) -> (res: Result<UserGrants, VerifyError>)
    ensures
        match res {
            Ok(grants) => claims_outcome(claims@, uid, now) == Ok::<Map<u64, Seq<u64>>, VerifyError>(
                role_seqs(grants@),
            ),
            Err(e) => claims_outcome(claims@, uid, now) == Err::<Map<u64, Seq<u64>>, VerifyError>(e),
        },
{
    if now >= claims.exp {
        return Err(VerifyError::Expired);
    }
    if claims.uid != uid {
        return Err(VerifyError::WrongPrincipal(claims.uid));
    }
    Ok(grants_of(&claims.grants))
}

/// Judges a token that the user `uid` hands in at the time `now`, in
/// seconds since the epoch, and returns the roles that it gives.
pub fn verify_at(uid: u64, jwt: &str, key: &[u8], now: u64) -> (res: Result<UserGrants, VerifyError>)
    ensures
        match res {
            Ok(grants) => verify_outcome(uid, jwt@, key@, now) == Ok::<
                Map<u64, Seq<u64>>,
                VerifyError,
            >(role_seqs(grants@)),
            Err(e) => verify_outcome(uid, jwt@, key@, now) == Err::<Map<u64, Seq<u64>>, VerifyError>(
                e,
            ),
        },
{
    match open_token(jwt, key) {
        Some(claims) => judge(&claims, uid, now),
        None => Err(VerifyError::Invalid),
    }
}

/// Judges a token that the user `uid` hands in now, and returns the roles
/// that it gives. Shape and signature are judged before the clock is asked:
/// a text that is no token signed with the key is refused as invalid,
/// whatever the clock says. What is returned for a token holds for the time
/// that the system clock gave.
pub fn jwt_decode(uid: u64, jwt: &str, key: &[u8]) -> (res: Result<UserGrants, VerifyError>)
    ensures
        res matches Err(VerifyError::Invalid) <==> token_claims(jwt@, key@) is None,
        match res {
            Ok(grants) => exists|now: u64| #[trigger]
                verify_outcome(uid, jwt@, key@, now) == Ok::<Map<u64, Seq<u64>>, VerifyError>(
                    role_seqs(grants@),
                ),
            Err(VerifyError::ClockUnavailable) => true,
            Err(e) => exists|now: u64| #[trigger]
                verify_outcome(uid, jwt@, key@, now) == Err::<Map<u64, Seq<u64>>, VerifyError>(e),
        },
{
    let claims = match open_token(jwt, key) {
        Some(claims) => claims,
        None => {
            assert(verify_outcome(uid, jwt@, key@, 0) == Err::<Map<u64, Seq<u64>>, VerifyError>(
                VerifyError::Invalid,
            ));
            return Err(VerifyError::Invalid);
        },
    };
    match unix_time() {
        Some(now) => {
            let res = judge(&claims, uid, now);
            assert(verify_outcome(uid, jwt@, key@, now) == claims_outcome(claims@, uid, now));
            res
        },
        None => Err(VerifyError::ClockUnavailable),
    }
}

/// Nothing is read from a token but under its signature: whatever is not
/// refused as invalid, at any time and for any user, has three parts, and its
/// third part is the signature of the other two under the key.
pub proof fn lemma_accepted_is_signed(uid: u64, token: Seq<char>, key: Seq<u8>, now: u64)
    requires
        verify_outcome(uid, token, key, now) != Err::<Map<u64, Seq<u64>>, VerifyError>(
            VerifyError::Invalid,
        ),
    ensures
        has_three_parts(token),
        signature_part(token) == hs512_signature(encode_utf8(signed_part(token)), key),
{
}

/// Of two tokens that differ in the signature alone, one at most is not
/// refused as invalid.
pub proof fn lemma_changed_signature_is_refused(
    uid: u64,
    token: Seq<char>,
    changed: Seq<char>,
    key: Seq<u8>,
    now: u64,
)
    requires
        signed_part(changed) == signed_part(token),
        signature_part(changed) != signature_part(token),
        verify_outcome(uid, token, key, now) != Err::<Map<u64, Seq<u64>>, VerifyError>(
            VerifyError::Invalid,
        ),
    ensures
        verify_outcome(uid, changed, key, now) == Err::<Map<u64, Seq<u64>>, VerifyError>(
            VerifyError::Invalid,
        ),
{
}

/// Of two tokens that differ in the signed part alone, one at most is not
/// refused as invalid, unless the two signed parts have the same signature
/// under the key.
pub proof fn lemma_changed_message_is_refused(
    uid: u64,
    token: Seq<char>,
    changed: Seq<char>,
    key: Seq<u8>,
    now: u64,
)
    requires
        signature_part(changed) == signature_part(token),
        hs512_signature(encode_utf8(signed_part(changed)), key) != hs512_signature(
            encode_utf8(signed_part(token)),
            key,
        ),
        verify_outcome(uid, token, key, now) != Err::<Map<u64, Seq<u64>>, VerifyError>(
            VerifyError::Invalid,
        ),
    ensures
        verify_outcome(uid, changed, key, now) == Err::<Map<u64, Seq<u64>>, VerifyError>(
            VerifyError::Invalid,
        ),
{
}

/// A token is judged by its expiry before it is judged by its user: from
/// the expiry on, it is refused as expired whoever hands it in; before that,
/// the user it was issued for gets its roles, and any other user is told
/// whom it is for.
pub proof fn lemma_expiry_then_user(uid: u64, token: Seq<char>, key: Seq<u8>, now: u64)
    requires
        token_claims(token, key) is Some,
    ensures
        ({
            let claims = token_claims(token, key)->Some_0;
            verify_outcome(uid, token, key, now) == (if now >= claims.exp {
                Err::<Map<u64, Seq<u64>>, VerifyError>(VerifyError::Expired)
            } else if uid != claims.uid {
                Err(VerifyError::WrongPrincipal(claims.uid))
            } else {
                Ok(entries_map(claims.grants))
            })
        }),
{
}

} // verus!
