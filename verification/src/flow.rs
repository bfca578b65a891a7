//! The two requests of a user: to be sent a token for a mail address, and
//! to be given the roles of a token.

use vstd::prelude::*;
use vstd::std_specs::iter::IteratorSpec;
use crate::grants::{role_seqs, Grants, UserGrants};
use crate::claims::entry_views;
use crate::jwt::{
    entries_of, is_compact, is_listing, is_token_for, issue_at, jwt_decode, redeems_as_issued,
    token_claims, unix_time, verify_at, verify_outcome, IssueError, VerifyError, MINUTE,
};

verus! {

broadcast use vstd::std_specs::hash::group_hash_axioms;

/// The answer to a request for a token.
#[derive(Debug)]
pub enum Issuance {
    /// The token to send to the mail address.
    Token(String),
    /// The address is entitled to nothing: no token was made.
    NoPermissions,
}

/// Whether some guild has a role.
pub open spec fn gives_any(roles: Map<u64, Seq<u64>>) -> bool {
    exists|guild: u64| roles.contains_key(guild) && (#[trigger] roles[guild]).len() > 0
}

/// Whether the table entitles `identity` to a role.
pub open spec fn is_entitled(table: Map<Seq<char>, Map<u64, Seq<u64>>>, identity: Seq<char>) -> bool {
    table.contains_key(identity) && gives_any(table[identity])
}

/// Whether `grants` holds a role in some guild.
pub fn has_roles(grants: &UserGrants) -> (res: bool)
    ensures
        res == gives_any(role_seqs(grants@)),
{
    let ghost roles = role_seqs(grants@);
    for guild in it: grants.keys()
        invariant
            roles == role_seqs(grants@),
            it.seq() == grants.keys().remaining(),
            forall|j: int|
                0 <= j < it.index() ==> grants@.contains_key(*#[trigger] it.seq()[j]) && grants@[*it.seq()[j]]@.len()
                    == 0,
    {
        proof {
            let all = grants.keys().remaining();
            assert(all.unref()[it.index()] == *guild);
            assert(all.unref().to_set().contains(*guild));
        }
        match grants.get(guild) {
            Some(held) => {
                if held.len() > 0 {
                    assert(roles.contains_key(*guild) && roles[*guild].len() > 0);
                    return true;
                }
            },
            None => {},
        }
    }
    proof {
        let all = grants.keys().remaining();
        assert forall|g: u64| roles.contains_key(g) implies (#[trigger] roles[g]).len() == 0 by {
            assert(all.unref().to_set().contains(g));
            let j = choose|j: int| 0 <= j < all.unref().len() && all.unref()[j] == g;
            assert(*all[j] == g);
        }
    }
    false
}

/// What holds of a token that was issued for an address of the table: it
/// has the shape of a token, carries the roles of the address and is worth
/// what a token with these roles is worth.
pub open spec fn is_grant_token(
    token: Seq<char>,
    table: Map<Seq<char>, Map<u64, Seq<u64>>>,
    identity: Seq<char>,
    key: Seq<u8>,
    lifetime: u64,
    uid: u64,
    now: u64,
) -> bool {
    &&& is_compact(token)
    &&& is_token_for(token, uid, table[identity], key, lifetime, now)
    &&& redeems_as_issued(token, uid, table[identity], key, lifetime, now)
}

/// The roles of `identity`, where the table entitles it to any.
fn entitlement<'a>(identity: &str, table: &'a Grants) -> (res: Option<&'a UserGrants>)
    ensures
        res is Some <==> is_entitled(table@, identity@),
        res matches Some(grants) ==> role_seqs(grants@) == table@[identity@],
{
    match table.get(identity) {
        Some(grants) => if has_roles(grants) {
            Some(grants)
        } else {
            None
        },
        None => None,
    }
}

/// Answers the user `uid` who asks for the roles of the mail address
/// `identity`, at the time `now` in seconds since the epoch. An address that
/// the table does not have, or that holds no role in any guild, gets no
/// token. Otherwise the token carries all the roles of the address; it is
/// signed with `key` and valid for `lifetime` minutes.
pub fn request_grant_at(
    identity: &str,
    table: &Grants,
    key: &[u8],
    lifetime: u64,
    uid: u64,
    now: u64,
) -> (res: Result<Issuance, IssueError>)
    ensures
        !is_entitled(table@, identity@) ==> res matches Ok(Issuance::NoPermissions),
        is_entitled(table@, identity@) && now + MINUTE * lifetime > u64::MAX ==> res matches Err(
            IssueError::LifetimeTooLong,
        ),
        is_entitled(table@, identity@) && now + MINUTE * lifetime <= u64::MAX ==> res matches Ok(
            Issuance::Token(_),
        ),
        res matches Ok(Issuance::Token(token)) ==> is_grant_token(
            token@,
            table@,
            identity@,
            key@,
            lifetime,
            uid,
            now,
        ),
{
    match entitlement(identity, table) {
        Some(grants) => match issue_at(uid, grants, key, lifetime, now) {
            Ok(token) => Ok(Issuance::Token(token)),
            Err(e) => Err(e),
        },
        None => Ok(Issuance::NoPermissions),
    }
}

/// Answers the user `uid` who asks now for the roles of the mail address
/// `identity`. An address that is entitled to nothing gets no token,
/// whatever the clock says; the token of another holds for the time that the
/// system clock gave.
pub fn request_grant(identity: &str, table: &Grants, key: &[u8], lifetime: u64, uid: u64) -> (res:
    Result<Issuance, IssueError>)
    ensures
        !is_entitled(table@, identity@) ==> res matches Ok(Issuance::NoPermissions),
        is_entitled(table@, identity@) ==> !(res matches Ok(Issuance::NoPermissions)),
        res matches Err(e) ==> e == IssueError::ClockUnavailable || (e == IssueError::LifetimeTooLong
            && lifetime > 0),
        res matches Ok(Issuance::Token(token)) ==> exists|now: u64| #[trigger]
            is_grant_token(token@, table@, identity@, key@, lifetime, uid, now),
{
    match entitlement(identity, table) {
        Some(grants) => match unix_time() {
            Some(now) => match issue_at(uid, grants, key, lifetime, now) {
                Ok(token) => {
                    assert(is_grant_token(token@, table@, identity@, key@, lifetime, uid, now));
                    let ghost text = token@;
                    let res = Ok(Issuance::Token(token));
                    assert(res matches Ok(Issuance::Token(t)) && t@ == text);
                    assert(exists|at: u64| #[trigger]
                        is_grant_token(text, table@, identity@, key@, lifetime, uid, at));
                    res
                },
                Err(e) => Err(e),
            },
            None => Err(IssueError::ClockUnavailable),
        },
        None => Ok(Issuance::NoPermissions),
    }
}

/// Judges the token that the user `uid` hands in at the time `now`, and
/// returns the roles to give.
pub fn redeem_at(uid: u64, token: &str, key: &[u8], now: u64) -> (res: Result<UserGrants, VerifyError>)
    ensures
        match res {
            Ok(grants) => verify_outcome(uid, token@, key@, now) == Ok::<
                Map<u64, Seq<u64>>,
                VerifyError,
            >(role_seqs(grants@)),
            Err(e) => verify_outcome(uid, token@, key@, now) == Err::<
                Map<u64, Seq<u64>>,
                VerifyError,
            >(e),
        },
{
    verify_at(uid, token, key, now)
}

/// Judges the token that the user `uid` hands in now, and returns the roles
/// to give. A text that is no token signed with the key is refused as
/// invalid, whatever the clock says; what is returned for a token holds for
/// the time that the system clock gave.
pub fn redeem(uid: u64, token: &str, key: &[u8]) -> (res: Result<UserGrants, VerifyError>)
    ensures
        res matches Err(VerifyError::Invalid) <==> token_claims(token@, key@) is None,
        match res {
            Ok(grants) => exists|now: u64| #[trigger]
                verify_outcome(uid, token@, key@, now) == Ok::<Map<u64, Seq<u64>>, VerifyError>(
                    role_seqs(grants@),
                ),
            Err(VerifyError::ClockUnavailable) => true,
            Err(e) => exists|now: u64| #[trigger]
                verify_outcome(uid, token@, key@, now) == Err::<Map<u64, Seq<u64>>, VerifyError>(e),
        },
{
    jwt_decode(uid, token, key)
}

/// The roles to give, one by one: the pairs of a guild and a role of it.
pub open spec fn pairs_of(roles: Map<u64, Seq<u64>>) -> Set<(u64, u64)> {
    Set::new(|pair: (u64, u64)| roles.contains_key(pair.0) && roles[pair.0].contains(pair.1))
}

/// The roles that users hold after `uid` was given `roles`. `held` has a
/// triple of user, guild and role for each role that a user holds. To give
/// a role that is held already changes nothing.
pub open spec fn applied(held: Set<(u64, u64, u64)>, uid: u64, roles: Map<u64, Seq<u64>>) -> Set<
    (u64, u64, u64),
> {
    Set::new(
        |t: (u64, u64, u64)| held.contains(t) || (t.0 == uid && pairs_of(roles).contains((t.1, t.2))),
    )
}

/// To give the same roles a second time changes nothing.
pub proof fn lemma_apply_twice(held: Set<(u64, u64, u64)>, uid: u64, roles: Map<u64, Seq<u64>>)
    ensures
        applied(applied(held, uid, roles), uid, roles) == applied(held, uid, roles),
{
    assert(applied(applied(held, uid, roles), uid, roles) =~= applied(held, uid, roles));
}

/// A token that is redeemed twice by its user gives the same roles both
/// times, and after the second time the users hold what they held after the
/// first.
pub proof fn lemma_redeem_twice(
    held: Set<(u64, u64, u64)>,
    uid: u64,
    token: Seq<char>,
    key: Seq<u8>,
    first: u64,
    second: u64,
)
    requires
        verify_outcome(uid, token, key, first) is Ok,
        verify_outcome(uid, token, key, second) is Ok,
    ensures
        verify_outcome(uid, token, key, first) == verify_outcome(uid, token, key, second),
        applied(
            applied(held, uid, verify_outcome(uid, token, key, first)->Ok_0),
            uid,
            verify_outcome(uid, token, key, second)->Ok_0,
        ) == applied(held, uid, verify_outcome(uid, token, key, first)->Ok_0),
{
    lemma_apply_twice(held, uid, verify_outcome(uid, token, key, first)->Ok_0);
}

/// The pairs of one guild with each of some roles, in the order of the
/// roles.
pub open spec fn pairs_with(guild: u64, roles: Seq<u64>) -> Seq<(u64, u64)> {
    Seq::new(roles.len(), |k: int| (guild, roles[k]))
}

/// The pairs of guild and role of a list of guilds with their roles, in the
/// order of the list.
pub open spec fn actions_of(entries: Seq<(u64, Seq<u64>)>) -> Seq<(u64, u64)>
    decreases entries.len(),
{
    if entries.len() == 0 {
        Seq::empty()
    } else {
        actions_of(entries.drop_last()) + pairs_with(entries.last().0, entries.last().1)
    }
}

/// The pairs of a list are those of its guilds with their roles.
proof fn lemma_actions_members(entries: Seq<(u64, Seq<u64>)>, pair: (u64, u64))
    ensures
        actions_of(entries).contains(pair) <==> exists|i: int|
            0 <= i < entries.len() && (#[trigger] entries[i]).0 == pair.0 && entries[i].1.contains(
                pair.1,
            ),
    decreases entries.len(),
{
    if entries.len() > 0 {
        let front = entries.drop_last();
        let last = entries.last();
        let n = entries.len() - 1;
        let tail = pairs_with(last.0, last.1);
        lemma_actions_members(front, pair);
        assert(entries[n] == last);
        if actions_of(entries).contains(pair) {
            let k = choose|k: int| 0 <= k < actions_of(entries).len() && actions_of(entries)[k] == pair;
            if k < actions_of(front).len() {
                assert(actions_of(front)[k] == pair);
                let i = choose|i: int|
                    0 <= i < front.len() && (#[trigger] front[i]).0 == pair.0 && front[i].1.contains(
                        pair.1,
                    );
                assert(entries[i] == front[i]);
            } else {
                let j = k - actions_of(front).len();
                assert(tail[j] == pair);
                assert(last.1[j] == pair.1);
            }
        }
        if exists|i: int|
            0 <= i < entries.len() && (#[trigger] entries[i]).0 == pair.0 && entries[i].1.contains(
                pair.1,
            ) {
            let i = choose|i: int|
                0 <= i < entries.len() && (#[trigger] entries[i]).0 == pair.0 && entries[i].1.contains(
                    pair.1,
                );
            if i < n {
                assert(front[i] == entries[i]);
                assert(actions_of(front).contains(pair));
                let k = choose|k: int| 0 <= k < actions_of(front).len() && actions_of(front)[k] == pair;
                assert(actions_of(entries)[k] == pair);
            } else {
                let j = choose|j: int| 0 <= j < last.1.len() && last.1[j] == pair.1;
                assert(tail[j] == pair);
                assert(actions_of(entries)[actions_of(front).len() + j] == pair);
            }
        }
    }
}

/// The roles to give, one by one: the pairs of a guild and a role, guild
/// after guild in the order in which the map hands its guilds out, the roles
/// of a guild in their order. This is what the caller has to ask for, once
/// for each pair.
pub fn grant_actions(grants: &UserGrants) -> (res: Vec<(u64, u64)>)
    ensures
        exists|entries: Seq<(u64, Seq<u64>)>|
            is_listing(entries, role_seqs(grants@)) && res@ == #[trigger] actions_of(entries),
        forall|pair: (u64, u64)|
            res@.contains(pair) <==> #[trigger] pairs_of(role_seqs(grants@)).contains(pair),
{
    let entries = entries_of(grants);
    let ghost listed = entry_views(entries@);
    let mut out: Vec<(u64, u64)> = Vec::new();
    let mut i: usize = 0;
    assert(listed.take(0) =~= Seq::<(u64, Seq<u64>)>::empty());
    while i < entries.len()
        invariant
            i <= entries@.len(),
            listed == entry_views(entries@),
            out@ == actions_of(listed.take(i as int)),
        decreases entries@.len() - i,
    {
        let guild: u64 = entries[i].0;
        let roles = &entries[i].1;
        let ghost before = out@;
        let mut k: usize = 0;
        while k < roles.len()
            invariant
                k <= roles@.len(),
                out@ == before + pairs_with(guild, roles@.take(k as int)),
            decreases roles@.len() - k,
        {
            out.push((guild, roles[k]));
            assert(out@ =~= before + pairs_with(guild, roles@.take(k + 1)));
            k = k + 1;
        }
        proof {
            assert(roles@.take(k as int) =~= roles@);
            assert(listed.take(i + 1).drop_last() =~= listed.take(i as int));
            assert(listed.take(i + 1).last() == (guild, roles@));
        }
        i = i + 1;
    }
    proof {
        assert(listed.take(i as int) =~= listed);
        let wanted = role_seqs(grants@);
        assert forall|pair: (u64, u64)| out@.contains(pair) <==> #[trigger] pairs_of(
            wanted,
        ).contains(pair) by {
            lemma_actions_members(listed, pair);
            if pairs_of(wanted).contains(pair) {
                let i = choose|i: int| 0 <= i < listed.len() && (#[trigger] listed[i]).0 == pair.0;
            }
        }
    }
    out
}

/// Whether `actions` asks for the roles `roles`: for each pair of a guild
/// and a role of it, and for nothing else.
pub open spec fn is_plan(actions: Seq<(u64, u64)>, roles: Map<u64, Seq<u64>>) -> bool {
    forall|pair: (u64, u64)| actions.contains(pair) <==> #[trigger] pairs_of(roles).contains(pair)
}

/// The roles that users hold after `uid` was given each pair of `actions`.
pub open spec fn given(held: Set<(u64, u64, u64)>, uid: u64, actions: Seq<(u64, u64)>) -> Set<
    (u64, u64, u64),
> {
    Set::new(|t: (u64, u64, u64)| held.contains(t) || (t.0 == uid && actions.contains((t.1, t.2))))
}

/// Answers the user `uid` who hands in a token at the time `now`: the roles
/// to give, one by one, or why the token is refused.
pub fn grant_at(uid: u64, token: &str, key: &[u8], now: u64) -> (res: Result<
    Vec<(u64, u64)>,
    VerifyError,
>)
    ensures
        match res {
            Ok(actions) => verify_outcome(uid, token@, key@, now) matches Ok(roles) && is_plan(
                actions@,
                roles,
            ) && exists|entries: Seq<(u64, Seq<u64>)>|
                is_listing(entries, roles) && actions@ == #[trigger] actions_of(entries),
            Err(e) => verify_outcome(uid, token@, key@, now) == Err::<
                Map<u64, Seq<u64>>,
                VerifyError,
            >(e),
        },
{
    match verify_at(uid, token, key, now) {
        Ok(grants) => Ok(grant_actions(&grants)),
        Err(e) => Err(e),
    }
}

/// Answers the user `uid` who hands in a token now: the roles to give, one
/// by one, or why the token is refused. A text that is no token signed with
/// the key is refused as invalid, whatever the clock says; what is returned
/// for a token holds for the time that the system clock gave.
pub fn grant(uid: u64, token: &str, key: &[u8]) -> (res: Result<Vec<(u64, u64)>, VerifyError>)
    ensures
        res matches Err(VerifyError::Invalid) <==> token_claims(token@, key@) is None,
        match res {
            Ok(actions) => exists|now: u64|
                #![trigger verify_outcome(uid, token@, key@, now)]
                verify_outcome(uid, token@, key@, now) matches Ok(roles) && is_plan(actions@, roles),
            Err(VerifyError::ClockUnavailable) => true,
            Err(e) => exists|now: u64| #[trigger]
                verify_outcome(uid, token@, key@, now) == Err::<Map<u64, Seq<u64>>, VerifyError>(e),
        },
{
    match redeem(uid, token, key) {
        Ok(grants) => {
            let actions = grant_actions(&grants);
            proof {
                let now = choose|now: u64| #[trigger]
                    verify_outcome(uid, token@, key@, now) == Ok::<Map<u64, Seq<u64>>, VerifyError>(
                        role_seqs(grants@),
                    );
                assert(verify_outcome(uid, token@, key@, now) matches Ok(roles) && is_plan(
                    actions@,
                    roles,
                ));
            }
            Ok(actions)
        },
        Err(e) => Err(e),
    }
}

/// A token that its user hands in twice before it expires asks for the same
/// roles both times, whatever the order of the pairs, and after the second
/// time the users hold what they held after the first.
pub proof fn lemma_grant_twice(
    held: Set<(u64, u64, u64)>,
    uid: u64,
    token: Seq<char>,
    key: Seq<u8>,
    first: u64,
    second: u64,
    once: Seq<(u64, u64)>,
    again: Seq<(u64, u64)>,
)
    requires
        verify_outcome(uid, token, key, first) matches Ok(roles) && is_plan(once, roles),
        verify_outcome(uid, token, key, second) matches Ok(roles) && is_plan(again, roles),
    ensures
        forall|pair: (u64, u64)| once.contains(pair) <==> again.contains(pair),
        given(held, uid, once) == applied(held, uid, verify_outcome(uid, token, key, first)->Ok_0),
        given(given(held, uid, once), uid, again) == given(held, uid, once),
{
    let roles = verify_outcome(uid, token, key, first)->Ok_0;
    assert(verify_outcome(uid, token, key, second)->Ok_0 == roles);
    assert forall|pair: (u64, u64)| once.contains(pair) <==> again.contains(pair) by {
        assert(once.contains(pair) <==> pairs_of(roles).contains(pair));
        assert(again.contains(pair) <==> pairs_of(roles).contains(pair));
    }
    assert(given(held, uid, once) =~= applied(held, uid, roles)) by {
        assert forall|t: (u64, u64, u64)|
            given(held, uid, once).contains(t) <==> applied(held, uid, roles).contains(t) by {
            assert(once.contains((t.1, t.2)) <==> pairs_of(roles).contains((t.1, t.2)));
        }
    }
    assert(given(given(held, uid, once), uid, again) =~= given(held, uid, once)) by {
        assert forall|t: (u64, u64, u64)|
            given(given(held, uid, once), uid, again).contains(t) <==> given(
                held,
                uid,
                once,
            ).contains(t) by {
            assert(once.contains((t.1, t.2)) <==> again.contains((t.1, t.2)));
        }
    }
}

/// Whether `id` can be the id of a guild or of a role: the platform has no
/// id 0.
pub fn is_platform_id(id: u64) -> (res: bool)
    ensures
        res == (id != 0),
{
    id != 0
}

} // verus!
