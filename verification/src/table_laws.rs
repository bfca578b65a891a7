//! What the table of grants holds, stated rule by rule rather than step by
//! step.

use vstd::prelude::*;
use crate::config::{ConfigView, GrantView, GuildView};
use crate::grants::{
    list_of, merged, table_model, with_grant, with_guilds, with_rule, with_rules, TableView,
};

verus! {

/// Whether the table has an entry for `identity` in `guild`.
pub open spec fn listed_in(t: TableView, identity: Seq<char>, guild: u64) -> bool {
    t.contains_key(identity) && t[identity].contains_key(guild)
}

/// Whether the table gives `identity` the role `role` in `guild`.
pub open spec fn holds(t: TableView, identity: Seq<char>, guild: u64, role: u64) -> bool {
    listed_in(t, identity, guild) && t[identity][guild].contains(role)
}

/// Whether the rule at `j` names a role and its list has the address
/// `identity`.
pub open spec fn rule_lists(
    rules: Seq<GrantView>,
    lists: Map<Seq<char>, Seq<Seq<char>>>,
    j: int,
    identity: Seq<char>,
) -> bool {
    0 <= j < rules.len() && list_of(lists, rules[j].emails).contains(identity) && rules[j].roles.len()
        > 0
}

/// Whether the rule at `j` lists `identity` and names the role `role`.
pub open spec fn rule_gives(
    rules: Seq<GrantView>,
    lists: Map<Seq<char>, Seq<Seq<char>>>,
    j: int,
    identity: Seq<char>,
    role: u64,
) -> bool {
    rule_lists(rules, lists, j, identity) && rules[j].roles.contains(role)
}

/// Whether the guild at `i` has the id `guild` and its rule at `j` names a
/// role and lists `identity`.
pub open spec fn guild_lists(
    guilds: Seq<GuildView>,
    lists: Map<Seq<char>, Seq<Seq<char>>>,
    i: int,
    j: int,
    identity: Seq<char>,
    guild: u64,
) -> bool {
    0 <= i < guilds.len() && guilds[i].id == guild && rule_lists(
        guilds[i].grants,
        lists,
        j,
        identity,
    )
}

/// Whether the guild at `i` has the id `guild` and its rule at `j` lists
/// `identity` and names the role `role`.
pub open spec fn guild_gives(
    guilds: Seq<GuildView>,
    lists: Map<Seq<char>, Seq<Seq<char>>>,
    i: int,
    j: int,
    identity: Seq<char>,
    guild: u64,
    role: u64,
) -> bool {
    0 <= i < guilds.len() && guilds[i].id == guild && rule_gives(
        guilds[i].grants,
        lists,
        j,
        identity,
        role,
    )
}

/// Whether every address of the table has an entry for some guild.
pub open spec fn no_bare_identity(t: TableView) -> bool {
    forall|identity: Seq<char>| #[trigger]
        t.contains_key(identity) ==> exists|guild: u64| listed_in(t, identity, guild)
}

/// Whether every entry of the table holds a role.
pub open spec fn no_empty_entry(t: TableView) -> bool {
    forall|identity: Seq<char>, guild: u64|
        listed_in(t, identity, guild) ==> (#[trigger] t[identity][guild]).len() > 0
}

/// Whether no entry of the table holds a role twice.
pub open spec fn no_role_twice(t: TableView) -> bool {
    forall|identity: Seq<char>, guild: u64|
        listed_in(t, identity, guild) ==> (#[trigger] t[identity][guild]).no_duplicates()
}

/// The roles held after some were given are those held before and those
/// given; where no role was held twice, none is.
pub proof fn lemma_merged(held: Seq<u64>, roles: Seq<u64>)
    ensures
        forall|role: u64|
            merged(held, roles).contains(role) <==> held.contains(role) || roles.contains(role),
        held.no_duplicates() ==> merged(held, roles).no_duplicates(),
        roles.len() > 0 ==> merged(held, roles).len() > 0,
    decreases roles.len(),
{
    if roles.len() > 0 {
        let front = roles.drop_last();
        let last = roles.last();
        let before = merged(held, front);
        lemma_merged(held, front);
        assert(roles[roles.len() - 1] == last);
        assert forall|role: u64|
            merged(held, roles).contains(role) <==> held.contains(role) || roles.contains(role) by {
            if roles.contains(role) {
                let k = choose|k: int| 0 <= k < roles.len() && roles[k] == role;
                if k < front.len() {
                    assert(front[k] == role);
                }
            }
            if front.contains(role) {
                let k = choose|k: int| 0 <= k < front.len() && front[k] == role;
                assert(roles[k] == role);
            }
            if !before.contains(last) {
                let after = before.push(last);
                if after.contains(role) {
                    let k = choose|k: int| 0 <= k < after.len() && after[k] == role;
                    if k < before.len() {
                        assert(before[k] == role);
                    }
                }
                if before.contains(role) {
                    let k = choose|k: int| 0 <= k < before.len() && before[k] == role;
                    assert(after[k] == role);
                }
                assert(after[before.len() as int] == last);
            }
        }
    }
}

/// One grant adds one entry and the roles it names, and nothing else.
proof fn lemma_with_grant(
    t: TableView,
    id0: Seq<char>,
    g0: u64,
    roles: Seq<u64>,
    identity: Seq<char>,
    guild: u64,
    role: u64,
)
    ensures
        listed_in(with_grant(t, id0, g0, roles), identity, guild) <==> listed_in(t, identity, guild)
            || (identity == id0 && guild == g0 && roles.len() > 0),
        holds(with_grant(t, id0, g0, roles), identity, guild, role) <==> holds(
            t,
            identity,
            guild,
            role,
        ) || (identity == id0 && guild == g0 && roles.contains(role)),
{
    let user = if t.contains_key(id0) {
        t[id0]
    } else {
        Map::empty()
    };
    let held = if user.contains_key(g0) {
        user[g0]
    } else {
        Seq::empty()
    };
    lemma_merged(held, roles);
    if roles.contains(role) {
        let k = choose|k: int| 0 <= k < roles.len() && roles[k] == role;
    }
}

/// One rule adds an entry for each address of its list, with the roles it
/// names, and nothing else.
proof fn lemma_with_rule(
    t: TableView,
    g0: u64,
    identities: Seq<Seq<char>>,
    roles: Seq<u64>,
    identity: Seq<char>,
    guild: u64,
    role: u64,
)
    ensures
        listed_in(with_rule(t, g0, identities, roles), identity, guild) <==> listed_in(
            t,
            identity,
            guild,
        ) || (identities.contains(identity) && guild == g0 && roles.len() > 0),
        holds(with_rule(t, g0, identities, roles), identity, guild, role) <==> holds(
            t,
            identity,
            guild,
            role,
        ) || (identities.contains(identity) && guild == g0 && roles.contains(role)),
    decreases identities.len(),
{
    if identities.len() > 0 {
        let front = identities.drop_last();
        lemma_with_rule(t, g0, front, roles, identity, guild, role);
        lemma_with_grant(
            with_rule(t, g0, front, roles),
            identities.last(),
            g0,
            roles,
            identity,
            guild,
            role,
        );
        if identities.contains(identity) {
            let k = choose|k: int| 0 <= k < identities.len() && identities[k] == identity;
            if k < front.len() {
                assert(front[k] == identity);
            }
        }
        if front.contains(identity) {
            let k = choose|k: int| 0 <= k < front.len() && front[k] == identity;
            assert(identities[k] == identity);
        }
        assert(identities[identities.len() - 1] == identities.last());
    }
}

/// The rules of one guild add what each of them adds, and nothing else.
proof fn lemma_with_rules(
    t: TableView,
    g0: u64,
    rules: Seq<GrantView>,
    lists: Map<Seq<char>, Seq<Seq<char>>>,
    identity: Seq<char>,
    guild: u64,
    role: u64,
)
    ensures
        listed_in(with_rules(t, g0, rules, lists), identity, guild) <==> listed_in(
            t,
            identity,
            guild,
        ) || (guild == g0 && exists|j: int| rule_lists(rules, lists, j, identity)),
        holds(with_rules(t, g0, rules, lists), identity, guild, role) <==> holds(
            t,
            identity,
            guild,
            role,
        ) || (guild == g0 && exists|j: int| rule_gives(rules, lists, j, identity, role)),
    decreases rules.len(),
{
    if rules.len() > 0 {
        let front = rules.drop_last();
        let last = rules.last();
        let n = rules.len() - 1;
        lemma_with_rules(t, g0, front, lists, identity, guild, role);
        lemma_with_rule(
            with_rules(t, g0, front, lists),
            g0,
            list_of(lists, last.emails),
            last.roles,
            identity,
            guild,
            role,
        );
        assert(rules[n] == last);
        if exists|j: int| rule_lists(front, lists, j, identity) {
            let j = choose|j: int| rule_lists(front, lists, j, identity);
            assert(front[j] == rules[j]);
            assert(rule_lists(rules, lists, j, identity));
        }
        if exists|j: int| rule_gives(front, lists, j, identity, role) {
            let j = choose|j: int| rule_gives(front, lists, j, identity, role);
            assert(front[j] == rules[j]);
            assert(rule_gives(rules, lists, j, identity, role));
        }
        if list_of(lists, last.emails).contains(identity) {
            if last.roles.len() > 0 {
                assert(rule_lists(rules, lists, n, identity));
            }
            if last.roles.contains(role) {
                let k = choose|k: int| 0 <= k < last.roles.len() && last.roles[k] == role;
                assert(rule_gives(rules, lists, n, identity, role));
            }
        }
        if exists|j: int| rule_lists(rules, lists, j, identity) {
            let j = choose|j: int| rule_lists(rules, lists, j, identity);
            if j < n {
                assert(front[j] == rules[j]);
                assert(rule_lists(front, lists, j, identity));
            }
        }
        if exists|j: int| rule_gives(rules, lists, j, identity, role) {
            let j = choose|j: int| rule_gives(rules, lists, j, identity, role);
            if j < n {
                assert(front[j] == rules[j]);
                assert(rule_gives(front, lists, j, identity, role));
            }
        }
    }
}

/// The guilds add what each of their rules adds, and nothing else.
proof fn lemma_with_guilds(
    t: TableView,
    guilds: Seq<GuildView>,
    lists: Map<Seq<char>, Seq<Seq<char>>>,
    identity: Seq<char>,
    guild: u64,
    role: u64,
)
    ensures
        listed_in(with_guilds(t, guilds, lists), identity, guild) <==> listed_in(
            t,
            identity,
            guild,
        ) || exists|i: int, j: int| guild_lists(guilds, lists, i, j, identity, guild),
        holds(with_guilds(t, guilds, lists), identity, guild, role) <==> holds(
            t,
            identity,
            guild,
            role,
        ) || exists|i: int, j: int| guild_gives(guilds, lists, i, j, identity, guild, role),
    decreases guilds.len(),
{
    if guilds.len() > 0 {
        let front = guilds.drop_last();
        let last = guilds.last();
        let n = guilds.len() - 1;
        lemma_with_guilds(t, front, lists, identity, guild, role);
        lemma_with_rules(
            with_guilds(t, front, lists),
            last.id,
            last.grants,
            lists,
            identity,
            guild,
            role,
        );
        assert(guilds[n] == last);
        if exists|i: int, j: int| guild_lists(front, lists, i, j, identity, guild) {
            let (i, j) = choose|i: int, j: int| guild_lists(front, lists, i, j, identity, guild);
            assert(front[i] == guilds[i]);
            assert(guild_lists(guilds, lists, i, j, identity, guild));
        }
        if exists|i: int, j: int| guild_gives(front, lists, i, j, identity, guild, role) {
            let (i, j) = choose|i: int, j: int|
                guild_gives(front, lists, i, j, identity, guild, role);
            assert(front[i] == guilds[i]);
            assert(guild_gives(guilds, lists, i, j, identity, guild, role));
        }
        if guild == last.id {
            if exists|j: int| rule_lists(last.grants, lists, j, identity) {
                let j = choose|j: int| rule_lists(last.grants, lists, j, identity);
                assert(guild_lists(guilds, lists, n, j, identity, guild));
            }
            if exists|j: int| rule_gives(last.grants, lists, j, identity, role) {
                let j = choose|j: int| rule_gives(last.grants, lists, j, identity, role);
                assert(guild_gives(guilds, lists, n, j, identity, guild, role));
            }
        }
        if exists|i: int, j: int| guild_lists(guilds, lists, i, j, identity, guild) {
            let (i, j) = choose|i: int, j: int| guild_lists(guilds, lists, i, j, identity, guild);
            if i < n {
                assert(front[i] == guilds[i]);
                assert(guild_lists(front, lists, i, j, identity, guild));
            } else {
                assert(rule_lists(last.grants, lists, j, identity));
            }
        }
        if exists|i: int, j: int| guild_gives(guilds, lists, i, j, identity, guild, role) {
            let (i, j) = choose|i: int, j: int|
                guild_gives(guilds, lists, i, j, identity, guild, role);
            if i < n {
                assert(front[i] == guilds[i]);
                assert(guild_gives(front, lists, i, j, identity, guild, role));
            } else {
                assert(rule_gives(last.grants, lists, j, identity, role));
            }
        }
    }
}

/// A grant leaves no address without a guild, no entry without a role and
/// no role held twice.
proof fn lemma_with_grant_tidy(t: TableView, id0: Seq<char>, g0: u64, roles: Seq<u64>)
    requires
        no_bare_identity(t),
        no_role_twice(t),
        no_empty_entry(t),
    ensures
        no_bare_identity(with_grant(t, id0, g0, roles)),
        no_role_twice(with_grant(t, id0, g0, roles)),
        no_empty_entry(with_grant(t, id0, g0, roles)),
{
    let t2 = with_grant(t, id0, g0, roles);
    let user = if t.contains_key(id0) {
        t[id0]
    } else {
        Map::empty()
    };
    let held = if user.contains_key(g0) {
        user[g0]
    } else {
        Seq::empty()
    };
    lemma_merged(held, roles);
    if roles.len() > 0 {
        assert forall|identity: Seq<char>, guild: u64| listed_in(t2, identity, guild) implies (
        #[trigger] t2[identity][guild]).no_duplicates() && t2[identity][guild].len() > 0 by {
            if !(identity == id0 && guild == g0) {
                assert(listed_in(t, identity, guild));
                assert(t2[identity][guild] == t[identity][guild]);
            }
        }
        assert forall|identity: Seq<char>| #[trigger] t2.contains_key(identity) implies exists|
            guild: u64,
        |
            listed_in(t2, identity, guild) by {
            if identity == id0 {
                assert(listed_in(t2, identity, g0));
            } else {
                assert(t.contains_key(identity));
                let g = choose|guild: u64| listed_in(t, identity, guild);
                assert(listed_in(t2, identity, g));
            }
        }
    }
}

/// A rule leaves no address without a guild, no entry without a role and no
/// role held twice.
proof fn lemma_with_rule_tidy(t: TableView, g0: u64, identities: Seq<Seq<char>>, roles: Seq<u64>)
    requires
        no_bare_identity(t),
        no_role_twice(t),
        no_empty_entry(t),
    ensures
        no_bare_identity(with_rule(t, g0, identities, roles)),
        no_role_twice(with_rule(t, g0, identities, roles)),
        no_empty_entry(with_rule(t, g0, identities, roles)),
    decreases identities.len(),
{
    if identities.len() > 0 {
        lemma_with_rule_tidy(t, g0, identities.drop_last(), roles);
        lemma_with_grant_tidy(
            with_rule(t, g0, identities.drop_last(), roles),
            identities.last(),
            g0,
            roles,
        );
    }
}

/// The rules of a guild leave no address without a guild, no entry without
/// a role and no role held twice.
proof fn lemma_with_rules_tidy(
    t: TableView,
    g0: u64,
    rules: Seq<GrantView>,
    lists: Map<Seq<char>, Seq<Seq<char>>>,
)
    requires
        no_bare_identity(t),
        no_role_twice(t),
        no_empty_entry(t),
    ensures
        no_bare_identity(with_rules(t, g0, rules, lists)),
        no_role_twice(with_rules(t, g0, rules, lists)),
        no_empty_entry(with_rules(t, g0, rules, lists)),
    decreases rules.len(),
{
    if rules.len() > 0 {
        lemma_with_rules_tidy(t, g0, rules.drop_last(), lists);
        lemma_with_rule_tidy(
            with_rules(t, g0, rules.drop_last(), lists),
            g0,
            list_of(lists, rules.last().emails),
            rules.last().roles,
        );
    }
}

/// The guilds leave no address without a guild, no entry without a role and
/// no role held twice.
proof fn lemma_with_guilds_tidy(
    t: TableView,
    guilds: Seq<GuildView>,
    lists: Map<Seq<char>, Seq<Seq<char>>>,
)
    requires
        no_bare_identity(t),
        no_role_twice(t),
        no_empty_entry(t),
    ensures
        no_bare_identity(with_guilds(t, guilds, lists)),
        no_role_twice(with_guilds(t, guilds, lists)),
        no_empty_entry(with_guilds(t, guilds, lists)),
    decreases guilds.len(),
{
    if guilds.len() > 0 {
        lemma_with_guilds_tidy(t, guilds.drop_last(), lists);
        lemma_with_rules_tidy(
            with_guilds(t, guilds.drop_last(), lists),
            guilds.last().id,
            guilds.last().grants,
            lists,
        );
    }
}

/// The table is the union of its rules, whatever their order and however
/// often they overlap: an address has an entry for a guild exactly if a rule
/// of a guild with that id names a role and lists the address, and it holds
/// a role there exactly if such a rule names the role.
pub proof fn lemma_table_is_union(
    cfg: ConfigView,
    lists: Map<Seq<char>, Seq<Seq<char>>>,
    identity: Seq<char>,
    guild: u64,
    role: u64,
)
    ensures
        listed_in(table_model(cfg, lists), identity, guild) <==> exists|i: int, j: int|
            guild_lists(cfg.guilds, lists, i, j, identity, guild),
        holds(table_model(cfg, lists), identity, guild, role) <==> exists|i: int, j: int|
            guild_gives(cfg.guilds, lists, i, j, identity, guild, role),
{
    lemma_with_guilds(Map::empty(), cfg.guilds, lists, identity, guild, role);
}

/// However many rules give an address a role in a guild, and however often
/// one rule names it, the address holds the role there once: no entry of the
/// table holds a role twice.
pub proof fn lemma_table_roles_once(cfg: ConfigView, lists: Map<Seq<char>, Seq<Seq<char>>>)
    ensures
        no_role_twice(table_model(cfg, lists)),
{
    lemma_with_guilds_tidy(Map::empty(), cfg.guilds, lists);
}

/// An address is in the table exactly if it has an entry for some guild:
/// the table holds no address without a guild.
pub proof fn lemma_table_identities(cfg: ConfigView, lists: Map<Seq<char>, Seq<Seq<char>>>)
    ensures
        no_bare_identity(table_model(cfg, lists)),
{
    lemma_with_guilds_tidy(Map::empty(), cfg.guilds, lists);
}

/// Every entry of the table holds a role: a rule that names no role gives
/// nobody an entry.
pub proof fn lemma_table_entries_not_empty(cfg: ConfigView, lists: Map<Seq<char>, Seq<Seq<char>>>)
    ensures
        no_empty_entry(table_model(cfg, lists)),
{
    lemma_with_guilds_tidy(Map::empty(), cfg.guilds, lists);
}

} // verus!
