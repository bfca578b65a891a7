//! All that is wrong with a configuration, not only what is met first.

use vstd::prelude::*;
use vstd::utf8::encode_utf8;
use crate::config::{
    config_model, document_model, get_key, get_lifetime, grant_model, grants_model, guild_model, guilds_model,
    has_guild, key_model, lifetime_model, roles_model, smtp_model, ConfigError, GuildView,
};
use crate::digits::{parse_u64, unsigned_value};
use crate::yaml::{load_yaml, yaml_documents, YamlNode};

verus! {

/// The problem of a missing text under `key`, if the text is missing.
pub open spec fn text_problems(node: YamlNode, key: Seq<char>, problem: ConfigError) -> Seq<
    ConfigError,
> {
    if node.at(key).text() is None {
        seq![problem]
    } else {
        Seq::empty()
    }
}

/// The problems of the port of a mail relay.
pub open spec fn port_problems(node: YamlNode) -> Seq<ConfigError> {
    match node.at("port"@) {
        YamlNode::Integer(port) => if 0 <= port <= u16::MAX {
            Seq::empty()
        } else {
            seq![ConfigError::InvalidPort]
        },
        _ => seq![ConfigError::MissingPort],
    }
}

/// The problems of a mail relay, field by field.
pub open spec fn smtp_problems(node: YamlNode) -> Seq<ConfigError> {
    text_problems(node, "host"@, ConfigError::MissingHost) + port_problems(node) + text_problems(
        node,
        "user"@,
        ConfigError::MissingUser,
    ) + text_problems(node, "password"@, ConfigError::MissingPassword)
}

/// The problems of one role.
pub open spec fn role_problems(item: YamlNode) -> Seq<ConfigError> {
    match item.text() {
        Some(text) => if unsigned_value(encode_utf8(text)) is None {
            seq![ConfigError::InvalidRoleId]
        } else {
            Seq::empty()
        },
        None => seq![ConfigError::InvalidRoleId],
    }
}

/// The problems of the roles of a rule.
pub open spec fn role_list_problems(node: YamlNode) -> Seq<ConfigError> {
    match node.at("roles"@).list() {
        Some(items) => roles_problems(items),
        None => seq![ConfigError::RolesNotList],
    }
}

/// The problems of the rules of a guild.
pub open spec fn grant_list_problems(node: YamlNode) -> Seq<ConfigError> {
    match node.at("grants"@).list() {
        Some(items) => grants_problems(items),
        None => seq![ConfigError::GrantsNotList],
    }
}

/// The problems of a list of roles, role by role.
pub open spec fn roles_problems(items: Seq<YamlNode>) -> Seq<ConfigError>
    decreases items.len(),
{
    if items.len() == 0 {
        Seq::empty()
    } else {
        roles_problems(items.drop_last()) + role_problems(items.last())
    }
}

/// The problems of a rule: those of its list, then those of its roles.
pub open spec fn grant_problems(node: YamlNode) -> Seq<ConfigError> {
    text_problems(node, "emails"@, ConfigError::MissingEmails) + role_list_problems(node)
}

/// The problems of some rules, rule by rule.
pub open spec fn grants_problems(items: Seq<YamlNode>) -> Seq<ConfigError>
    decreases items.len(),
{
    if items.len() == 0 {
        Seq::empty()
    } else {
        grants_problems(items.drop_last()) + grant_problems(items.last())
    }
}

/// The id of a guild.
pub open spec fn guild_id(node: YamlNode) -> Result<u64, ConfigError> {
    match node.at("id"@).text() {
        None => Err(ConfigError::MissingGuildId),
        Some(text) => match unsigned_value(encode_utf8(text)) {
            None => Err(ConfigError::InvalidGuildId),
            Some(id) => Ok(id),
        },
    }
}

/// The problems of a guild: those of its id, then those of its rules.
pub open spec fn guild_problems(node: YamlNode) -> Seq<ConfigError> {
    (match guild_id(node) {
        Ok(_) => Seq::empty(),
        Err(e) => seq![e],
    }) + grant_list_problems(node)
}

/// The ids of the guilds that have one.
pub open spec fn known_ids(items: Seq<YamlNode>) -> Seq<u64>
    decreases items.len(),
{
    if items.len() == 0 {
        Seq::empty()
    } else {
        match guild_id(items.last()) {
            Ok(id) => known_ids(items.drop_last()).push(id),
            Err(_) => known_ids(items.drop_last()),
        }
    }
}

/// The problem of a guild whose id is that of an earlier guild.
pub open spec fn repeat_problems(earlier: Seq<u64>, node: YamlNode) -> Seq<ConfigError> {
    match guild_id(node) {
        Ok(id) => if earlier.contains(id) {
            seq![ConfigError::DuplicateGuildId]
        } else {
            Seq::empty()
        },
        Err(_) => Seq::empty(),
    }
}

/// The problems of some guilds, guild by guild; the problem of a repeated
/// id comes behind the other problems of the guild that repeats it.
pub open spec fn guilds_problems(items: Seq<YamlNode>) -> Seq<ConfigError>
    decreases items.len(),
{
    if items.len() == 0 {
        Seq::empty()
    } else {
        guilds_problems(items.drop_last()) + guild_problems(items.last()) + repeat_problems(
            known_ids(items.drop_last()),
            items.last(),
        )
    }
}

/// The problem of a value that failed, if it failed.
pub open spec fn failure<T>(res: Result<T, ConfigError>) -> Seq<ConfigError> {
    match res {
        Ok(_) => Seq::empty(),
        Err(e) => seq![e],
    }
}

/// The problems of the mail relay of a document.
pub open spec fn relay_problems(doc: YamlNode) -> Seq<ConfigError> {
    if doc.at("smtp"@) is BadValue {
        seq![ConfigError::MissingSmtp]
    } else {
        smtp_problems(doc.at("smtp"@))
    }
}

/// The problems of the guilds of a document.
pub open spec fn guild_list_problems(doc: YamlNode) -> Seq<ConfigError> {
    match doc.at("guilds"@) {
        YamlNode::BadValue => seq![ConfigError::MissingGuilds],
        YamlNode::Array(items) => guilds_problems(items@),
        _ => seq![ConfigError::GuildsNotList],
    }
}

/// All the problems of a document, in the order in which the fields are
/// read: token, lifetime, key, mail relay, guilds.
pub open spec fn document_problems(doc: YamlNode) -> Seq<ConfigError> {
    text_problems(doc, "token"@, ConfigError::MissingToken) + failure(lifetime_model(doc))
        + failure(key_model(doc)) + relay_problems(doc) + guild_list_problems(doc)
}

/// All the problems of the text of a configuration.
pub open spec fn source_problems(source: Seq<char>) -> Seq<ConfigError> {
    match yaml_documents(source) {
        None => seq![ConfigError::Syntax],
        Some(docs) => if docs.len() == 0 {
            seq![ConfigError::NoDocument]
        } else {
            document_problems(docs[0])
        },
    }
}

/// Whether `problems` tells of `res` what reading tells: nothing where
/// reading succeeds, and first the error with which reading fails.
pub open spec fn tells<T>(problems: Seq<ConfigError>, res: Result<T, ConfigError>) -> bool {
    match res {
        Ok(_) => problems.len() == 0,
        Err(e) => problems.len() > 0 && problems[0] == e,
    }
}

/// The problems of a mail relay tell what reading it tells.
proof fn lemma_smtp_problems(node: YamlNode)
    ensures
        tells(smtp_problems(node), smtp_model(node)),
{
}

/// The problems of a list of roles tell what reading it tells.
proof fn lemma_roles_problems(items: Seq<YamlNode>)
    ensures
        tells(roles_problems(items), roles_model(items)),
    decreases items.len(),
{
    if items.len() > 0 {
        lemma_roles_problems(items.drop_last());
    }
}

/// The problems of a rule tell what reading it tells.
proof fn lemma_grant_problems(node: YamlNode)
    ensures
        tells(grant_problems(node), grant_model(node)),
{
    if let Some(items) = node.at("roles"@).list() {
        lemma_roles_problems(items);
    }
}

/// The problems of some rules tell what reading them tells.
proof fn lemma_grants_problems(items: Seq<YamlNode>)
    ensures
        tells(grants_problems(items), grants_model(items)),
    decreases items.len(),
{
    if items.len() > 0 {
        lemma_grants_problems(items.drop_last());
        lemma_grant_problems(items.last());
    }
}

/// The problems of a guild tell what reading it tells, and a guild that is
/// read has the id that it shows.
proof fn lemma_guild_problems(node: YamlNode)
    ensures
        tells(guild_problems(node), guild_model(node)),
        guild_model(node) matches Ok(guild) ==> guild_id(node) == Ok::<u64, ConfigError>(guild.id),
{
    if let Some(items) = node.at("grants"@).list() {
        lemma_grants_problems(items);
    }
}

/// The problems of some guilds tell what reading them tells, and the ids
/// of guilds that are read are the ids that they show.
proof fn lemma_guilds_problems(items: Seq<YamlNode>)
    ensures
        tells(guilds_problems(items), guilds_model(items)),
        guilds_model(items) matches Ok(guilds) ==> known_ids(items) == guilds.map_values(
            |g: GuildView| g.id,
        ),
    decreases items.len(),
{
    if items.len() > 0 {
        let front = items.drop_last();
        lemma_guilds_problems(front);
        lemma_guild_problems(items.last());
        if let Ok(guilds) = guilds_model(front) {
            let ids = guilds.map_values(|g: GuildView| g.id);
            if let Ok(guild) = guild_model(items.last()) {
                if has_guild(guilds, guild.id) {
                    let i = choose|i: int| 0 <= i < guilds.len() && (#[trigger] guilds[i]).id == guild.id;
                    assert(ids[i] == guild.id);
                } else {
                    if ids.contains(guild.id) {
                        let i = choose|i: int| 0 <= i < ids.len() && ids[i] == guild.id;
                        assert(guilds[i].id == guild.id);
                    }
                    assert(guilds.push(guild).map_values(|g: GuildView| g.id) =~= ids.push(
                        guild.id,
                    ));
                }
            }
        }
    } else {
        assert(Seq::<GuildView>::empty().map_values(|g: GuildView| g.id) =~= Seq::<u64>::empty());
    }
}

/// The list of problems is empty exactly where the configuration is
/// accepted, and where it is refused the list starts with the error with
/// which it is refused.
pub proof fn lemma_problems_tell(doc: YamlNode, root_dir: Seq<char>)
    ensures
        tells(document_problems(doc), document_model(doc, root_dir)),
{
    lemma_smtp_problems(doc.at("smtp"@));
    if let Some(items) = doc.at("guilds"@).list() {
        lemma_guilds_problems(items);
    }
}

/// The same holds of the text of a configuration.
pub proof fn lemma_source_problems_tell(source: Seq<char>, root_dir: Seq<char>)
    ensures
        tells(source_problems(source), config_model(source, root_dir)),
{
    if let Some(docs) = yaml_documents(source) {
        if docs.len() > 0 {
            lemma_problems_tell(docs[0], root_dir);
        }
    }
}

/// Notes `problem` where `node` holds no text under `key`.
fn note_text(out: &mut Vec<ConfigError>, node: &YamlNode, key: &str, problem: ConfigError)
    ensures
        final(out)@ == old(out)@ + text_problems(*node, key@, problem),
{
    let missing = match node.field(key) {
        Some(YamlNode::Text(_)) => false,
        _ => true,
    };
    if missing {
        out.push(problem);
    }
    assert(out@ =~= old(out)@ + text_problems(*node, key@, problem));
}

/// Notes the problems of a mail relay.
fn note_smtp(out: &mut Vec<ConfigError>, node: &YamlNode)
    ensures
        final(out)@ == old(out)@ + smtp_problems(*node),
{
    note_text(out, node, "host", ConfigError::MissingHost);
    let ghost mid = out@;
    match node.field("port") {
        Some(YamlNode::Integer(port)) => {
            if !(0 <= *port && *port <= 65535) {
                out.push(ConfigError::InvalidPort);
            }
        },
        _ => {
            out.push(ConfigError::MissingPort);
        },
    }
    assert(out@ =~= mid + port_problems(*node));
    note_text(out, node, "user", ConfigError::MissingUser);
    note_text(out, node, "password", ConfigError::MissingPassword);
    assert(out@ =~= old(out)@ + smtp_problems(*node));
}

/// Notes the problems of a list of roles.
fn note_roles(out: &mut Vec<ConfigError>, items: &Vec<YamlNode>)
    ensures
        final(out)@ == old(out)@ + roles_problems(items@),
{
    let mut i: usize = 0;
    assert(items@.take(0) =~= Seq::<YamlNode>::empty());
    assert(out@ =~= old(out)@ + roles_problems(items@.take(0)));
    while i < items.len()
        invariant
            i <= items@.len(),
            out@ == old(out)@ + roles_problems(items@.take(i as int)),
        decreases items@.len() - i,
    {
        proof {
            assert(items@.take(i + 1).drop_last() =~= items@.take(i as int));
            assert(items@.take(i + 1).last() == items@[i as int]);
        }
        let ghost before = out@;
        let role = match &items[i] {
            YamlNode::Text(text) => parse_u64(text.as_str()),
            _ => None,
        };
        if role.is_none() {
            out.push(ConfigError::InvalidRoleId);
        }
        assert(out@ =~= before + role_problems(items@[i as int]));
        assert(out@ =~= old(out)@ + roles_problems(items@.take(i + 1)));
        i = i + 1;
    }
    assert(items@.take(i as int) =~= items@);
}

/// Notes the problems of a rule.
fn note_grant(out: &mut Vec<ConfigError>, node: &YamlNode)
    ensures
        final(out)@ == old(out)@ + grant_problems(*node),
{
    note_text(out, node, "emails", ConfigError::MissingEmails);
    let ghost mid = out@;
    match node.field("roles") {
        Some(YamlNode::Array(items)) => note_roles(out, items),
        _ => {
            out.push(ConfigError::RolesNotList);
        },
    }
    assert(out@ =~= mid + role_list_problems(*node));
    assert(out@ =~= old(out)@ + grant_problems(*node));
}

/// Notes the problems of some rules.
fn note_grants(out: &mut Vec<ConfigError>, items: &Vec<YamlNode>)
    ensures
        final(out)@ == old(out)@ + grants_problems(items@),
{
    let mut i: usize = 0;
    assert(items@.take(0) =~= Seq::<YamlNode>::empty());
    assert(out@ =~= old(out)@ + grants_problems(items@.take(0)));
    while i < items.len()
        invariant
            i <= items@.len(),
            out@ == old(out)@ + grants_problems(items@.take(i as int)),
        decreases items@.len() - i,
    {
        proof {
            assert(items@.take(i + 1).drop_last() =~= items@.take(i as int));
            assert(items@.take(i + 1).last() == items@[i as int]);
        }
        note_grant(out, &items[i]);
        assert(out@ =~= old(out)@ + grants_problems(items@.take(i + 1)));
        i = i + 1;
    }
    assert(items@.take(i as int) =~= items@);
}

/// Reads the id of a guild.
fn read_guild_id(node: &YamlNode) -> (res: Result<u64, ConfigError>)
    ensures
        res == guild_id(*node),
{
    match node.field("id") {
        Some(YamlNode::Text(text)) => match parse_u64(text.as_str()) {
            Some(id) => Ok(id),
            None => Err(ConfigError::InvalidGuildId),
        },
        _ => Err(ConfigError::MissingGuildId),
    }
}

/// Whether `id` is among `ids`.
fn is_known(ids: &Vec<u64>, id: u64) -> (res: bool)
    ensures
        res == ids@.contains(id),
{
    let mut i: usize = 0;
    while i < ids.len()
        invariant
            i <= ids@.len(),
            forall|k: int| 0 <= k < i ==> ids@[k] != id,
        decreases ids@.len() - i,
    {
        if ids[i] == id {
            return true;
        }
        i = i + 1;
    }
    false
}

/// Notes the problems of some guilds.
fn note_guilds(out: &mut Vec<ConfigError>, items: &Vec<YamlNode>)
    ensures
        final(out)@ == old(out)@ + guilds_problems(items@),
{
    let mut ids: Vec<u64> = Vec::new();
    let mut i: usize = 0;
    assert(items@.take(0) =~= Seq::<YamlNode>::empty());
    assert(out@ =~= old(out)@ + guilds_problems(items@.take(0)));
    while i < items.len()
        invariant
            i <= items@.len(),
            ids@ == known_ids(items@.take(i as int)),
            out@ == old(out)@ + guilds_problems(items@.take(i as int)),
        decreases items@.len() - i,
    {
        proof {
            assert(items@.take(i + 1).drop_last() =~= items@.take(i as int));
            assert(items@.take(i + 1).last() == items@[i as int]);
        }
        let node = &items[i];
        let ghost before = out@;
        let ghost earlier = ids@;
        let id = read_guild_id(node);
        if let Err(e) = id {
            out.push(e);
        }
        let ghost mid = out@;
        match node.field("grants") {
            Some(YamlNode::Array(rules)) => note_grants(out, rules),
            _ => {
                out.push(ConfigError::GrantsNotList);
            },
        }
        assert(out@ =~= mid + grant_list_problems(*node));
        assert(out@ =~= before + guild_problems(*node));
        if let Ok(id) = id {
            if is_known(&ids, id) {
                out.push(ConfigError::DuplicateGuildId);
            }
            ids.push(id);
        }
        assert(out@ =~= before + guild_problems(*node) + repeat_problems(earlier, *node));
        assert(out@ =~= old(out)@ + guilds_problems(items@.take(i + 1)));
        i = i + 1;
    }
    assert(items@.take(i as int) =~= items@);
}

/// Lists all the problems of a document, in the order in which its fields
/// are read. The list is empty exactly where the document is accepted.
pub fn config_problems(doc: &YamlNode) -> (res: Vec<ConfigError>)
    ensures
        res@ == document_problems(*doc),
{
    let mut out: Vec<ConfigError> = Vec::new();
    note_text(&mut out, doc, "token", ConfigError::MissingToken);
    if let Err(e) = get_lifetime(doc) {
        out.push(e);
    }
    if let Err(e) = get_key(doc) {
        out.push(e);
    }
    assert(out@ =~= text_problems(*doc, "token"@, ConfigError::MissingToken) + failure(
        lifetime_model(*doc),
    ) + failure(key_model(*doc)));
    let ghost mid = out@;
    match doc.field("smtp") {
        None | Some(YamlNode::BadValue) => {
            out.push(ConfigError::MissingSmtp);
        },
        Some(node) => note_smtp(&mut out, node),
    }
    assert(out@ =~= mid + relay_problems(*doc));
    let ghost late = out@;
    match doc.field("guilds") {
        None | Some(YamlNode::BadValue) => {
            out.push(ConfigError::MissingGuilds);
        },
        Some(YamlNode::Array(items)) => note_guilds(&mut out, items),
        Some(_) => {
            out.push(ConfigError::GuildsNotList);
        },
    }
    assert(out@ =~= late + guild_list_problems(*doc));
    assert(out@ =~= document_problems(*doc));
    out
}

/// Lists all the problems of the text of a configuration: of its first
/// document. The list is empty exactly where the text is accepted.
pub fn check_config(source: &str) -> (res: Vec<ConfigError>)
    ensures
        res@ == source_problems(source@),
{
    match load_yaml(source) {
        Err(_) => {
            let mut out: Vec<ConfigError> = Vec::new();
            out.push(ConfigError::Syntax);
            assert(out@ =~= seq![ConfigError::Syntax]);
            out
        },
        Ok(docs) => {
            if docs.len() == 0 {
                let mut out: Vec<ConfigError> = Vec::new();
                out.push(ConfigError::NoDocument);
                assert(out@ =~= seq![ConfigError::NoDocument]);
                out
            } else {
                config_problems(&docs[0])
            }
        },
    }
}

} // verus!
