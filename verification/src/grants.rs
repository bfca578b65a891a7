//! The table of grants: for each registered mail address, the roles it is
//! entitled to in each guild.

use vstd::prelude::*;
use vstd::hash_map::StringHashMap;
use std::collections::HashMap;
use crate::config::{Config, ConfigView, GrantView, Guild, GuildView};
use crate::table_laws::{
    lemma_table_entries_not_empty, lemma_table_identities, lemma_table_roles_once,
    no_bare_identity, no_empty_entry, no_role_twice,
};

verus! {

broadcast use vstd::std_specs::hash::group_hash_axioms;

/// The roles of one address: for each guild, the roles to give there.
pub type UserGrants = HashMap<u64, Vec<u64>>;

/// For each guild the roles, in the order in which they are held.
pub open spec fn role_seqs(user: Map<u64, Vec<u64>>) -> Map<u64, Seq<u64>> {
    Map::new(|g: u64| user.contains_key(g), |g: u64| user[g]@)
}

/// The roles held after `roles` were given to one who held `held`: each
/// role that is not held yet is put behind the others, in the order of
/// `roles`.
pub open spec fn merged(held: Seq<u64>, roles: Seq<u64>) -> Seq<u64>
    decreases roles.len(),
{
    if roles.len() == 0 {
        held
    } else if merged(held, roles.drop_last()).contains(roles.last()) {
        merged(held, roles.drop_last())
    } else {
        merged(held, roles.drop_last()).push(roles.last())
    }
}

/// What a table holds: for each address and each guild, the roles.
pub type TableView = Map<Seq<char>, Map<u64, Seq<u64>>>;

/// The roles of one address after it was given some roles in one guild: the
/// roles join those that the address holds there already. Where no role is
/// given, nothing changes: no guild gets an entry without a role.
pub open spec fn with_roles(user: Map<u64, Seq<u64>>, guild: u64, roles: Seq<u64>) -> Map<
    u64,
    Seq<u64>,
> {
    if roles.len() == 0 {
        user
    } else {
        user.insert(
            guild,
            merged(
                if user.contains_key(guild) {
                    user[guild]
                } else {
                    Seq::empty()
                },
                roles,
            ),
        )
    }
}

/// The table after one address was given some roles in one guild. Where no
/// role is given, the table stays as it is: no address gets an entry without
/// a role.
pub open spec fn with_grant(t: TableView, identity: Seq<char>, guild: u64, roles: Seq<u64>) -> TableView {
    if roles.len() == 0 {
        t
    } else {
        t.insert(
            identity,
            with_roles(
                if t.contains_key(identity) {
                    t[identity]
                } else {
                    Map::empty()
                },
                guild,
                roles,
            ),
        )
    }
}

/// The table after each of some addresses was given the same roles in one
/// guild.
pub open spec fn with_rule(
    t: TableView,
    guild: u64,
    identities: Seq<Seq<char>>,
    roles: Seq<u64>,
) -> TableView
    decreases identities.len(),
{
    if identities.len() == 0 {
        t
    } else {
        with_grant(
            with_rule(t, guild, identities.drop_last(), roles),
            identities.last(),
            guild,
            roles,
        )
    }
}

/// The addresses of the list called `name`; a list that is not there has
/// none.
pub open spec fn list_of(lists: Map<Seq<char>, Seq<Seq<char>>>, name: Seq<char>) -> Seq<Seq<char>> {
    if lists.contains_key(name) {
        lists[name]
    } else {
        Seq::empty()
    }
}

/// The table after some rules of one guild were applied, in their order.
pub open spec fn with_rules(
    t: TableView,
    guild: u64,
    rules: Seq<GrantView>,
    lists: Map<Seq<char>, Seq<Seq<char>>>,
) -> TableView
    decreases rules.len(),
{
    if rules.len() == 0 {
        t
    } else {
        with_rule(
            with_rules(t, guild, rules.drop_last(), lists),
            guild,
            list_of(lists, rules.last().emails),
            rules.last().roles,
        )
    }
}

/// The table after the rules of some guilds were applied, in their order.
pub open spec fn with_guilds(
    t: TableView,
    guilds: Seq<GuildView>,
    lists: Map<Seq<char>, Seq<Seq<char>>>,
) -> TableView
    decreases guilds.len(),
{
    if guilds.len() == 0 {
        t
    } else {
        with_rules(
            with_guilds(t, guilds.drop_last(), lists),
            guilds.last().id,
            guilds.last().grants,
            lists,
        )
    }
}

/// The table that a configuration and its lists of addresses describe.
pub open spec fn table_model(cfg: ConfigView, lists: Map<Seq<char>, Seq<Seq<char>>>) -> TableView {
    with_guilds(Map::empty(), cfg.guilds, lists)
}

/// Whether every list that one of `rules` names is there.
pub open spec fn rules_listed(rules: Seq<GrantView>, lists: Map<Seq<char>, Seq<Seq<char>>>) -> bool {
    forall|j: int| 0 <= j < rules.len() ==> lists.contains_key((#[trigger] rules[j]).emails)
}

/// Whether every list that a rule of the configuration names is there.
pub open spec fn lists_complete(cfg: ConfigView, lists: Map<Seq<char>, Seq<Seq<char>>>) -> bool {
    forall|i: int| 0 <= i < cfg.guilds.len() ==> rules_listed((#[trigger] cfg.guilds[i]).grants, lists)
}

/// The texts of some strings.
pub open spec fn texts(lines: Seq<String>) -> Seq<Seq<char>> {
    Seq::new(lines.len(), |i: int| lines[i]@)
}

/// The lists of addresses that the rules name, each under its name.
pub struct IdentityLists {
    lists: StringHashMap<Vec<String>>,
}

impl View for IdentityLists {
    type V = Map<Seq<char>, Seq<Seq<char>>>;

    closed spec fn view(&self) -> Map<Seq<char>, Seq<Seq<char>>> {
        Map::new(|name: Seq<char>| self.lists@.contains_key(name), |name: Seq<char>| texts(self.lists@[name]@))
    }
}

impl IdentityLists {
    /// No list at all.
    pub fn new() -> (res: Self)
        ensures
            res@ == Map::<Seq<char>, Seq<Seq<char>>>::empty(),
    {
        let res = IdentityLists { lists: StringHashMap::new() };
        assert(res@ =~= Map::<Seq<char>, Seq<Seq<char>>>::empty());
        res
    }

    /// Puts the list `identities` under `name`, in place of an earlier one.
    pub fn insert(&mut self, name: String, identities: Vec<String>)
        ensures
            final(self)@ == old(self)@.insert(name@, texts(identities@)),
    {
        let ghost key = name@;
        let ghost value = texts(identities@);
        self.lists.insert(name, identities);
        assert(self@ =~= old(self)@.insert(key, value));
    }

    /// The list under `name`.
    pub fn get(&self, name: &str) -> (res: Option<&Vec<String>>)
        ensures
            match res {
                Some(identities) => self@.contains_key(name@) && self@[name@] == texts(identities@),
                None => !self@.contains_key(name@),
            },
    {
        self.lists.get(name)
    }
}

/// What a table holds: `index` gives each address a place in `users`, and
/// `users` holds the roles of the address there.
spec fn slots_view(index: Map<Seq<char>, usize>, users: Seq<UserGrants>) -> TableView {
    Map::new(
        |identity: Seq<char>| index.contains_key(identity),
        |identity: Seq<char>| role_seqs(users[index[identity] as int]@),
    )
}

/// Whether each address has a place of its own.
spec fn slots_wf(index: Map<Seq<char>, usize>, users: Seq<UserGrants>) -> bool {
    &&& forall|k: Seq<char>| #[trigger] index.contains_key(k) ==> index[k] < users.len()
    &&& forall|k1: Seq<char>, k2: Seq<char>|
        index.contains_key(k1) && index.contains_key(k2) && index[k1] == index[k2] ==> k1 == k2
}

/// The table of grants: for each address the roles it is entitled to, guild
/// by guild. A table is built once and read from then on.
pub struct Grants {
    index: StringHashMap<usize>,
    users: Vec<UserGrants>,
}

impl View for Grants {
    type V = TableView;

    closed spec fn view(&self) -> TableView {
        slots_view(self.index@, self.users@)
    }
}

/// Whether `role` is among `roles`.
fn has_role(roles: &Vec<u64>, role: u64) -> (res: bool)
    ensures
        res == roles@.contains(role),
{
    let mut i: usize = 0;
    while i < roles.len()
        invariant
            i <= roles@.len(),
            forall|k: int| 0 <= k < i ==> roles@[k] != role,
        decreases roles@.len() - i,
    {
        if roles[i] == role {
            return true;
        }
        i = i + 1;
    }
    false
}

/// Adds to `held` each of `roles` that it does not hold yet.
fn merge_roles(held: &mut Vec<u64>, roles: &Vec<u64>)
    ensures
        final(held)@ == merged(old(held)@, roles@),
{
    let mut i: usize = 0;
    assert(roles@.take(0) =~= Seq::<u64>::empty());
    while i < roles.len()
        invariant
            i <= roles@.len(),
            held@ == merged(old(held)@, roles@.take(i as int)),
        decreases roles@.len() - i,
    {
        proof {
            assert(roles@.take(i + 1).drop_last() =~= roles@.take(i as int));
            assert(roles@.take(i + 1).last() == roles@[i as int]);
        }
        if !has_role(held, roles[i]) {
            held.push(roles[i]);
        }
        i = i + 1;
    }
    assert(roles@.take(i as int) =~= roles@);
}

/// Gives `roles` in `guild`: they join the roles held there, none twice.
/// Where `roles` is empty, nothing changes.
pub fn add_roles(user: &mut UserGrants, guild: u64, roles: &Vec<u64>)
    ensures
        role_seqs(final(user)@) == with_roles(role_seqs(old(user)@), guild, roles@),
{
    if roles.len() == 0 {
        return ;
    }
    let mut held: Vec<u64> = match user.remove(&guild) {
        Some(v) => v,
        None => Vec::new(),
    };
    let ghost was = held@;
    merge_roles(&mut held, roles);
    user.insert(guild, held);
    assert(role_seqs(user@) =~= role_seqs(old(user)@).insert(guild, merged(was, roles@)));
}

impl Grants {
    /// What holds of every table.
    #[verifier::type_invariant]
    closed spec fn wf(&self) -> bool {
        slots_wf(self.index@, self.users@)
    }

    /// The table without any address.
    pub fn new() -> (res: Self)
        ensures
            res@ == Map::<Seq<char>, Map<u64, Seq<u64>>>::empty(),
    {
        let res = Grants { index: StringHashMap::new(), users: Vec::new() };
        assert(res@ =~= Map::<Seq<char>, Map<u64, Seq<u64>>>::empty());
        res
    }

    /// The roles of `identity`, where the table has the address: the
    /// address is looked up as it is written, letter for letter.
    pub fn get(&self, identity: &str) -> (res: Option<&UserGrants>)
        ensures
            match res {
                Some(user) => self@.contains_key(identity@) && role_seqs(user@) == self@[identity@],
                None => !self@.contains_key(identity@),
            },
    {
        proof {
            use_type_invariant(self);
        }
        match self.index.get(identity) {
            Some(slot) => Some(&self.users[*slot]),
            None => None,
        }
    }
}

/// Gives `identity` the roles `roles` in `guild`.
fn give_roles(
    index: &mut StringHashMap<usize>,
    users: &mut Vec<UserGrants>,
    identity: &str,
    guild: u64,
    roles: &Vec<u64>,
)
    requires
        slots_wf(old(index)@, old(users)@),
    ensures
        slots_wf(final(index)@, final(users)@),
        slots_view(final(index)@, final(users)@) == with_grant(
            slots_view(old(index)@, old(users)@),
            identity@,
            guild,
            roles@,
        ),
{
    if roles.len() == 0 {
        return ;
    }
    let ghost before = slots_view(index@, users@);
    let known = match index.get(identity) {
        Some(slot) => Some(*slot),
        None => None,
    };
    let slot: usize = match known {
        Some(slot) => slot,
        None => {
            let slot: usize = users.len();
            users.push(HashMap::new());
            index.insert(identity.to_owned(), slot);
            slot
        },
    };
    let ghost mid_users = users@;
    assert(slots_wf(index@, mid_users));
    assert(role_seqs(mid_users[slot as int]@) =~= (if before.contains_key(identity@) {
        before[identity@]
    } else {
        Map::empty()
    }));
    add_roles(&mut users[slot], guild, roles);
    proof {
        assert(users@.len() == mid_users.len());
        assert(forall|s: int| 0 <= s < users@.len() && s != slot ==> users@[s] == mid_users[s]);
        assert(slots_view(index@, users@) =~= with_grant(before, identity@, guild, roles@));
    }
}

/// Gives each of `identities` the roles `roles` in `guild`.
fn apply_rule(
    index: &mut StringHashMap<usize>,
    users: &mut Vec<UserGrants>,
    guild: u64,
    identities: &Vec<String>,
    roles: &Vec<u64>,
)
    requires
        slots_wf(old(index)@, old(users)@),
    ensures
        slots_wf(final(index)@, final(users)@),
        slots_view(final(index)@, final(users)@) == with_rule(
            slots_view(old(index)@, old(users)@),
            guild,
            texts(identities@),
            roles@,
        ),
{
    let ghost before = slots_view(index@, users@);
    let mut i: usize = 0;
    assert(texts(identities@).take(0) =~= Seq::<Seq<char>>::empty());
    while i < identities.len()
        invariant
            i <= identities@.len(),
            slots_wf(index@, users@),
            slots_view(index@, users@) == with_rule(
                before,
                guild,
                texts(identities@).take(i as int),
                roles@,
            ),
        decreases identities@.len() - i,
    {
        proof {
            let all = texts(identities@);
            assert(all.take(i + 1).drop_last() =~= all.take(i as int));
            assert(all.take(i + 1).last() == identities@[i as int]@);
        }
        give_roles(index, users, identities[i].as_str(), guild, roles);
        i = i + 1;
    }
    assert(texts(identities@).take(i as int) =~= texts(identities@));
}

/// Applies the rules of one guild, in their order. Stops at the first rule
/// whose list is missing, and returns `false` then.
fn apply_guild(
    index: &mut StringHashMap<usize>,
    users: &mut Vec<UserGrants>,
    guild: &Guild,
    lists: &IdentityLists,
) -> (res: bool)
    requires
        slots_wf(old(index)@, old(users)@),
    ensures
        slots_wf(final(index)@, final(users)@),
        res == rules_listed(guild@.grants, lists@),
        res ==> slots_view(final(index)@, final(users)@) == with_rules(
            slots_view(old(index)@, old(users)@),
            guild.id,
            guild@.grants,
            lists@,
        ),
{
    let ghost before = slots_view(index@, users@);
    let ghost rules = guild@.grants;
    let mut j: usize = 0;
    assert(rules.take(0) =~= Seq::<GrantView>::empty());
    while j < guild.grants.len()
        invariant
            j <= guild.grants@.len(),
            rules == guild@.grants,
            rules.len() == guild.grants@.len(),
            slots_wf(index@, users@),
            rules_listed(rules.take(j as int), lists@),
            slots_view(index@, users@) == with_rules(before, guild.id, rules.take(j as int), lists@),
        decreases guild.grants@.len() - j,
    {
        let rule = &guild.grants[j];
        proof {
            assert(rules[j as int] == rule@);
            assert(rules.take(j + 1).drop_last() =~= rules.take(j as int));
            assert(rules.take(j + 1).last() == rule@);
        }
        match lists.get(rule.emails.as_str()) {
            Some(identities) => {
                apply_rule(index, users, guild.id, identities, &rule.roles);
                assert forall|k: int| 0 <= k < rules.take(j + 1).len() implies lists@.contains_key(
                    (#[trigger] rules.take(j + 1)[k]).emails,
                ) by {
                    if k < j {
                        assert(rules.take(j as int)[k] == rules.take(j + 1)[k]);
                    }
                }
            },
            None => {
                return false;
            },
        }
        j = j + 1;
    }
    assert(rules.take(j as int) =~= rules);
    true
}

/// Builds the table of grants from the rules of the configuration and the
/// lists of addresses that they name: guild by guild and rule by rule, each
/// address of a rule's list is given the rule's roles in the rule's guild.
/// A rule that names no role gives nothing. Every entry of the table holds
/// a role, none holds a role twice, and every address has an entry.
/// `None` where a rule names a list that `lists` does not hold.
pub fn load_grants(cfg: &Config, lists: &IdentityLists) -> (res: Option<Grants>)
    ensures
        res is Some <==> lists_complete(cfg@, lists@),
        res matches Some(table) ==> table@ == table_model(cfg@, lists@),
        res matches Some(table) ==> no_empty_entry(table@) && no_role_twice(table@)
            && no_bare_identity(table@),
{
    proof {
        lemma_table_entries_not_empty(cfg@, lists@);
        lemma_table_roles_once(cfg@, lists@);
        lemma_table_identities(cfg@, lists@);
    }
    let ghost guilds = cfg@.guilds;
    let mut index: StringHashMap<usize> = StringHashMap::new();
    let mut users: Vec<UserGrants> = Vec::new();
    let mut i: usize = 0;
    assert(guilds.take(0) =~= Seq::<GuildView>::empty());
    assert(slots_view(index@, users@) =~= Map::<Seq<char>, Map<u64, Seq<u64>>>::empty());
    while i < cfg.guilds.len()
        invariant
            i <= cfg.guilds@.len(),
            guilds == cfg@.guilds,
            guilds.len() == cfg.guilds@.len(),
            slots_wf(index@, users@),
            forall|k: int| 0 <= k < i ==> rules_listed((#[trigger] guilds[k]).grants, lists@),
            slots_view(index@, users@) == with_guilds(Map::empty(), guilds.take(i as int), lists@),
        decreases cfg.guilds@.len() - i,
    {
        let guild = &cfg.guilds[i];
        proof {
            assert(guilds[i as int] == guild@);
            assert(guilds.take(i + 1).drop_last() =~= guilds.take(i as int));
            assert(guilds.take(i + 1).last() == guild@);
        }
        if !apply_guild(&mut index, &mut users, guild, lists) {
            return None;
        }
        i = i + 1;
    }
    assert(guilds.take(i as int) =~= guilds);
    Some(Grants { index, users })
}

/// The names of the lists that the rules of the configuration name, rule
/// by rule; a name comes once for each rule that has it.
pub open spec fn names_model(guilds: Seq<GuildView>) -> Seq<Seq<char>>
    decreases guilds.len(),
{
    if guilds.len() == 0 {
        Seq::empty()
    } else {
        names_model(guilds.drop_last()) + guilds.last().grants.map_values(|r: GrantView| r.emails)
    }
}

/// The names of the lists of addresses that have to be read before
/// `load_grants` is called, in the order of the rules.
pub fn list_names(cfg: &Config) -> (res: Vec<String>)
    ensures
        texts(res@) == names_model(cfg@.guilds),
{
    let ghost guilds = cfg@.guilds;
    let mut names: Vec<String> = Vec::new();
    let mut i: usize = 0;
    assert(guilds.take(0) =~= Seq::<GuildView>::empty());
    assert(texts(names@) =~= Seq::<Seq<char>>::empty());
    while i < cfg.guilds.len()
        invariant
            i <= cfg.guilds@.len(),
            guilds == cfg@.guilds,
            guilds.len() == cfg.guilds@.len(),
            texts(names@) == names_model(guilds.take(i as int)),
        decreases cfg.guilds@.len() - i,
    {
        let guild = &cfg.guilds[i];
        let ghost rules = guild@.grants;
        let ghost before = texts(names@);
        proof {
            assert(guilds[i as int] == guild@);
            assert(guilds.take(i + 1).drop_last() =~= guilds.take(i as int));
            assert(guilds.take(i + 1).last() == guild@);
        }
        let mut j: usize = 0;
        while j < guild.grants.len()
            invariant
                j <= guild.grants@.len(),
                rules == guild@.grants,
                rules.len() == guild.grants@.len(),
                texts(names@) == before + rules.take(j as int).map_values(|r: GrantView| r.emails),
            decreases guild.grants@.len() - j,
        {
            let ghost had = names@;
            names.push(guild.grants[j].emails.clone());
            proof {
                assert(rules[j as int] == guild.grants@[j as int]@);
                assert(texts(names@) =~= texts(had).push(rules[j as int].emails));
                assert(rules.take(j + 1).map_values(|r: GrantView| r.emails) =~= rules.take(
                    j as int,
                ).map_values(|r: GrantView| r.emails).push(rules[j as int].emails));
            }
            j = j + 1;
        }
        assert(rules.take(j as int) =~= rules);
        i = i + 1;
    }
    assert(guilds.take(i as int) =~= guilds);
    names
}

/// The lines that are not empty, in their order.
pub open spec fn filled(lines: Seq<Seq<char>>) -> Seq<Seq<char>>
    decreases lines.len(),
{
    if lines.len() == 0 {
        Seq::empty()
    } else if lines.last().len() == 0 {
        filled(lines.drop_last())
    } else {
        filled(lines.drop_last()).push(lines.last())
    }
}

/// The addresses of a list, from the lines of its file: an empty line is
/// no address.
pub fn identities_of(lines: Vec<String>) -> (res: Vec<String>)
    ensures
        texts(res@) == filled(texts(lines@)),
{
    let ghost all = texts(lines@);
    let mut out: Vec<String> = Vec::new();
    let mut i: usize = 0;
    assert(all.take(0) =~= Seq::<Seq<char>>::empty());
    assert(texts(out@) =~= Seq::<Seq<char>>::empty());
    while i < lines.len()
        invariant
            i <= lines@.len(),
            all == texts(lines@),
            texts(out@) == filled(all.take(i as int)),
        decreases lines@.len() - i,
    {
        proof {
            assert(all.take(i + 1).drop_last() =~= all.take(i as int));
            assert(all.take(i + 1).last() == lines@[i as int]@);
        }
        if !lines[i].as_str().is_empty() {
            let ghost before = texts(out@);
            out.push(lines[i].clone());
            assert(texts(out@) =~= before.push(lines@[i as int]@));
        }
        i = i + 1;
    }
    assert(all.take(i as int) =~= all);
    out
}

} // verus!
