//! The configuration: the bot's secrets, the mail relay, and for each guild
//! the rules that grant roles to lists of mail addresses.

use vstd::prelude::*;
use vstd::string::StringExecFns;
use vstd::utf8::encode_utf8;
use crate::b64::{base64_bytes, decode_standard};
use crate::digits::{parse_u64, unsigned_value};
use crate::yaml::{load_yaml, yaml_documents, YamlNode};

verus! {

/// The lifetime of a token, in minutes, where the configuration gives none.
pub const DEFAULT_LIFETIME: u64 = 60;

/// The least length of the signing key, in bytes.
pub const MIN_KEY_LEN: usize = 16;

/// Why a configuration is refused.
#[derive(Debug, Clone, Copy, PartialEq, Eq, Structural)]
pub enum ConfigError {
    /// The text is no YAML.
    Syntax,
    /// The text holds no document.
    NoDocument,
    /// `token` is missing or no string.
    MissingToken,
    /// `jwt_lifetime` is there and no integer.
    LifetimeNotInteger,
    /// `jwt_lifetime` is negative.
    InvalidLifetime,
    /// `jwt_key` is missing or no string.
    MissingKey,
    /// `jwt_key` is no base64.
    KeyNotBase64,
    /// `jwt_key` holds fewer bytes than `MIN_KEY_LEN`.
    KeyTooShort,
    /// `smtp` is missing.
    MissingSmtp,
    /// `smtp.host` is missing or no string.
    MissingHost,
    /// `smtp.port` is missing or no integer.
    MissingPort,
    /// `smtp.port` is no port number.
    InvalidPort,
    /// `smtp.user` is missing or no string.
    MissingUser,
    /// `smtp.password` is missing or no string.
    MissingPassword,
    /// `guilds` is missing.
    MissingGuilds,
    /// A guild's `id` is missing or no string.
    MissingGuildId,
    /// A guild's `id` is no unsigned 64-bit number.
    InvalidGuildId,
    /// Two guilds have the same `id`.
    DuplicateGuildId,
    /// A rule's `emails` is missing or no string.
    MissingEmails,
    /// A role of a rule is no string, or no unsigned 64-bit number.
    InvalidRoleId,
    /// `guilds` is no list.
    GuildsNotList,
    /// `grants` of a guild is missing or no list.
    GrantsNotList,
    /// `roles` of a rule is missing or no list.
    RolesNotList,
}

/// A rule: the members of a list of mail addresses get some roles.
#[derive(Debug)]
pub struct Grant {
    /// The name of the file that lists the addresses, one per line.
    pub emails: String,
    /// The roles to give.
    pub roles: Vec<u64>,
}

/// A guild and its rules.
#[derive(Debug)]
pub struct Guild {
    pub id: u64,
    pub grants: Vec<Grant>,
}

/// The mail relay and the account to send with.
#[derive(Debug)]
pub struct Smtp {
    pub host: String,
    pub port: u16,
    pub user: String,
    pub password: String,
}

/// The whole configuration.
#[derive(Debug)]
pub struct Config {
    /// The directory of the configuration file and of the address lists.
    pub root_dir: String,
    /// The bot's token for the chat platform.
    pub token: String,
    /// How long a token is valid, in minutes.
    pub jwt_lifetime: u64,
    /// The key that signs the tokens.
    pub jwt_key: Vec<u8>,
    pub smtp: Smtp,
    pub guilds: Vec<Guild>,
}

/// What a `Grant` holds.
pub struct GrantView {
    pub emails: Seq<char>,
    pub roles: Seq<u64>,
}

/// What a `Guild` holds.
pub struct GuildView {
    pub id: u64,
    pub grants: Seq<GrantView>,
}

/// What an `Smtp` holds.
pub struct SmtpView {
    pub host: Seq<char>,
    pub port: u16,
    pub user: Seq<char>,
    pub password: Seq<char>,
}

/// What a `Config` holds.
pub struct ConfigView {
    pub root_dir: Seq<char>,
    pub token: Seq<char>,
    pub jwt_lifetime: u64,
    pub jwt_key: Seq<u8>,
    pub smtp: SmtpView,
    pub guilds: Seq<GuildView>,
}

/// The views of some rules.
pub open spec fn grant_views(grants: Seq<Grant>) -> Seq<GrantView> {
    Seq::new(grants.len(), |i: int| grants[i]@)
}

/// The views of some guilds.
pub open spec fn guild_views(guilds: Seq<Guild>) -> Seq<GuildView> {
    Seq::new(guilds.len(), |i: int| guilds[i]@)
}

impl View for Grant {
    type V = GrantView;

    open spec fn view(&self) -> GrantView {
        GrantView { emails: self.emails@, roles: self.roles@ }
    }
}

impl View for Guild {
    type V = GuildView;

    open spec fn view(&self) -> GuildView {
        GuildView { id: self.id, grants: grant_views(self.grants@) }
    }
}

impl View for Smtp {
    type V = SmtpView;

    open spec fn view(&self) -> SmtpView {
        SmtpView {
            host: self.host@,
            port: self.port,
            user: self.user@,
            password: self.password@,
        }
    }
}

impl View for Config {
    type V = ConfigView;

    open spec fn view(&self) -> ConfigView {
        ConfigView {
            root_dir: self.root_dir@,
            token: self.token@,
            jwt_lifetime: self.jwt_lifetime,
            jwt_key: self.jwt_key@,
            smtp: self.smtp@,
            guilds: guild_views(self.guilds@),
        }
    }
}

/// Whether no two guilds have the same id.
pub open spec fn distinct_guilds(guilds: Seq<GuildView>) -> bool {
    forall|i: int, j: int|
        0 <= i < j < guilds.len() ==> (#[trigger] guilds[i]).id != (#[trigger] guilds[j]).id
}

impl ConfigView {
    /// What holds of every configuration that was accepted: the key is long
    /// enough, and no two guilds have the same id.
    pub open spec fn wf(self) -> bool {
        &&& self.jwt_key.len() >= MIN_KEY_LEN
        &&& distinct_guilds(self.guilds)
    }
}

/// The mail relay that a node describes.
pub open spec fn smtp_model(node: YamlNode) -> Result<SmtpView, ConfigError> {
    match node.at("host"@).text() {
        None => Err(ConfigError::MissingHost),
        Some(host) => match node.at("port"@) {
            YamlNode::Integer(port) => if 0 <= port <= u16::MAX {
                match node.at("user"@).text() {
                    None => Err(ConfigError::MissingUser),
                    Some(user) => match node.at("password"@).text() {
                        None => Err(ConfigError::MissingPassword),
                        Some(password) => Ok(
                            SmtpView { host, port: port as u16, user, password },
                        ),
                    },
                }
            } else {
                Err(ConfigError::InvalidPort)
            },
            _ => Err(ConfigError::MissingPort),
        },
    }
}

/// The roles that a sequence of nodes lists. Each node is a string that
/// holds the role's number; the first node that is not decides the error.
pub open spec fn roles_model(items: Seq<YamlNode>) -> Result<Seq<u64>, ConfigError>
    decreases items.len(),
{
    if items.len() == 0 {
        Ok(Seq::empty())
    } else {
        match roles_model(items.drop_last()) {
            Err(e) => Err(e),
            Ok(roles) => match items.last().text() {
                None => Err(ConfigError::InvalidRoleId),
                Some(text) => match unsigned_value(encode_utf8(text)) {
                    None => Err(ConfigError::InvalidRoleId),
                    Some(role) => Ok(roles.push(role)),
                },
            },
        }
    }
}

/// The rule that a node describes.
pub open spec fn grant_model(node: YamlNode) -> Result<GrantView, ConfigError> {
    match node.at("emails"@).text() {
        None => Err(ConfigError::MissingEmails),
        Some(emails) => match node.at("roles"@).list() {
            None => Err(ConfigError::RolesNotList),
            Some(items) => match roles_model(items) {
                Err(e) => Err(e),
                Ok(roles) => Ok(GrantView { emails, roles }),
            },
        },
    }
}

/// The rules that a sequence of nodes describes; the first node that is
/// refused decides the error.
pub open spec fn grants_model(items: Seq<YamlNode>) -> Result<Seq<GrantView>, ConfigError>
    decreases items.len(),
{
    if items.len() == 0 {
        Ok(Seq::empty())
    } else {
        match grants_model(items.drop_last()) {
            Err(e) => Err(e),
            Ok(grants) => match grant_model(items.last()) {
                Err(e) => Err(e),
                Ok(grant) => Ok(grants.push(grant)),
            },
        }
    }
}

/// The guild that a node describes.
pub open spec fn guild_model(node: YamlNode) -> Result<GuildView, ConfigError> {
    match node.at("id"@).text() {
        None => Err(ConfigError::MissingGuildId),
        Some(text) => match unsigned_value(encode_utf8(text)) {
            None => Err(ConfigError::InvalidGuildId),
            Some(id) => match node.at("grants"@).list() {
                None => Err(ConfigError::GrantsNotList),
                Some(items) => match grants_model(items) {
                    Err(e) => Err(e),
                    Ok(grants) => Ok(GuildView { id, grants }),
                },
            },
        },
    }
}

/// Whether one of `guilds` has the id `id`.
pub open spec fn has_guild(guilds: Seq<GuildView>, id: u64) -> bool {
    exists|i: int| 0 <= i < guilds.len() && (#[trigger] guilds[i]).id == id
}

/// The guilds that a sequence of nodes describes; the first node that is
/// refused, or that repeats the id of an earlier one, decides the error.
pub open spec fn guilds_model(items: Seq<YamlNode>) -> Result<Seq<GuildView>, ConfigError>
    decreases items.len(),
{
    if items.len() == 0 {
        Ok(Seq::empty())
    } else {
        match guilds_model(items.drop_last()) {
            Err(e) => Err(e),
            Ok(guilds) => match guild_model(items.last()) {
                Err(e) => Err(e),
                Ok(guild) => if has_guild(guilds, guild.id) {
                    Err(ConfigError::DuplicateGuildId)
                } else {
                    Ok(guilds.push(guild))
                },
            },
        }
    }
}

/// The lifetime that a document asks for.
pub open spec fn lifetime_model(doc: YamlNode) -> Result<u64, ConfigError> {
    match doc.at("jwt_lifetime"@) {
        YamlNode::Integer(minutes) => if minutes >= 0 {
            Ok(minutes as u64)
        } else {
            Err(ConfigError::InvalidLifetime)
        },
        YamlNode::BadValue => Ok(DEFAULT_LIFETIME),
        _ => Err(ConfigError::LifetimeNotInteger),
    }
}

/// The signing key that a document holds.
pub open spec fn key_model(doc: YamlNode) -> Result<Seq<u8>, ConfigError> {
    match doc.at("jwt_key"@).text() {
        None => Err(ConfigError::MissingKey),
        Some(text) => match base64_bytes(text) {
            None => Err(ConfigError::KeyNotBase64),
            Some(key) => if key.len() < MIN_KEY_LEN {
                Err(ConfigError::KeyTooShort)
            } else {
                Ok(key)
            },
        },
    }
}

/// The guilds that a document describes: `guilds` has to be there and to be
/// a list.
pub open spec fn guild_list_model(doc: YamlNode) -> Result<Seq<GuildView>, ConfigError> {
    match doc.at("guilds"@) {
        YamlNode::BadValue => Err(ConfigError::MissingGuilds),
        YamlNode::Array(items) => guilds_model(items@),
        _ => Err(ConfigError::GuildsNotList),
    }
}

/// The configuration that a document describes. The fields are read in
/// the order token, lifetime, key, mail relay, guilds, and the first that is
/// refused decides the error.
pub open spec fn document_model(doc: YamlNode, root_dir: Seq<char>) -> Result<
    ConfigView,
    ConfigError,
> {
    match doc.at("token"@).text() {
        None => Err(ConfigError::MissingToken),
        Some(token) => match lifetime_model(doc) {
            Err(e) => Err(e),
            Ok(jwt_lifetime) => match key_model(doc) {
                Err(e) => Err(e),
                Ok(jwt_key) => if doc.at("smtp"@) is BadValue {
                    Err(ConfigError::MissingSmtp)
                } else {
                    match smtp_model(doc.at("smtp"@)) {
                        Err(e) => Err(e),
                        Ok(smtp) => match guild_list_model(doc) {
                            Err(e) => Err(e),
                            Ok(guilds) => Ok(
                                ConfigView { root_dir, token, jwt_lifetime, jwt_key, smtp, guilds },
                            ),
                        },
                    }
                },
            },
        },
    }
}

/// The configuration that a YAML text describes: that of its first
/// document.
pub open spec fn config_model(source: Seq<char>, root_dir: Seq<char>) -> Result<
    ConfigView,
    ConfigError,
> {
    match yaml_documents(source) {
        None => Err(ConfigError::Syntax),
        Some(docs) => if docs.len() == 0 {
            Err(ConfigError::NoDocument)
        } else {
            document_model(docs[0], root_dir)
        },
    }
}

/// Whether `res` is the outcome `model`, the value taken by its view.
pub open spec fn agrees<T: View>(res: Result<T, ConfigError>, model: Result<T::V, ConfigError>) -> bool {
    match res {
        Ok(value) => model == Ok::<T::V, ConfigError>(value@),
        Err(e) => model == Err::<T::V, ConfigError>(e),
    }
}

/// An error among the first nodes of a list of roles is the error of the
/// whole list.
proof fn lemma_roles_error(items: Seq<YamlNode>, k: int)
    requires
        0 <= k <= items.len(),
        roles_model(items.take(k)) is Err,
    ensures
        roles_model(items) == roles_model(items.take(k)),
    decreases items.len() - k,
{
    if k < items.len() {
        assert(items.take(k + 1).drop_last() =~= items.take(k));
        lemma_roles_error(items, k + 1);
    } else {
        assert(items.take(k) =~= items);
    }
}

/// An error among the first nodes of a list of rules is the error of the
/// whole list.
proof fn lemma_grants_error(items: Seq<YamlNode>, k: int)
    requires
        0 <= k <= items.len(),
        grants_model(items.take(k)) is Err,
    ensures
        grants_model(items) == grants_model(items.take(k)),
    decreases items.len() - k,
{
    if k < items.len() {
        assert(items.take(k + 1).drop_last() =~= items.take(k));
        lemma_grants_error(items, k + 1);
    } else {
        assert(items.take(k) =~= items);
    }
}

/// An error among the first nodes of a list of guilds is the error of the
/// whole list.
proof fn lemma_guilds_error(items: Seq<YamlNode>, k: int)
    requires
        0 <= k <= items.len(),
        guilds_model(items.take(k)) is Err,
    ensures
        guilds_model(items) == guilds_model(items.take(k)),
    decreases items.len() - k,
{
    if k < items.len() {
        assert(items.take(k + 1).drop_last() =~= items.take(k));
        lemma_guilds_error(items, k + 1);
    } else {
        assert(items.take(k) =~= items);
    }
}

/// The guilds of an accepted list have distinct ids.
pub proof fn lemma_guilds_distinct(items: Seq<YamlNode>)
    requires
        guilds_model(items) is Ok,
    ensures
        distinct_guilds(guilds_model(items)->Ok_0),
    decreases items.len(),
{
    if items.len() > 0 {
        lemma_guilds_distinct(items.drop_last());
    }
}

/// A copy of the text under `key`, where `node` holds a string there.
fn text_at(node: &YamlNode, key: &str) -> (res: Option<String>)
    ensures
        match res {
            Some(s) => node.at(key@).text() == Some(s@),
            None => node.at(key@).text() is None,
        },
{
    match node.field(key) {
        Some(value) => value.to_text(),
        None => None,
    }
}

/// Reads the mail relay from the node under `smtp`.
pub fn get_smtp(node: &YamlNode) -> (res: Result<Smtp, ConfigError>)
    ensures
        agrees(res, smtp_model(*node)),
{
    let host = match text_at(node, "host") {
        Some(s) => s,
        None => return Err(ConfigError::MissingHost),
    };
    let port: u16 = match node.field("port") {
        Some(YamlNode::Integer(p)) => {
            if 0 <= *p && *p <= 65535 {
                *p as u16
            } else {
                return Err(ConfigError::InvalidPort);
            }
        },
        _ => return Err(ConfigError::MissingPort),
    };
    let user = match text_at(node, "user") {
        Some(s) => s,
        None => return Err(ConfigError::MissingUser),
    };
    let password = match text_at(node, "password") {
        Some(s) => s,
        None => return Err(ConfigError::MissingPassword),
    };
    Ok(Smtp { host, port, user, password })
}

/// Reads the roles of a rule from the items under `roles`.
fn get_roles(items: &Vec<YamlNode>) -> (res: Result<Vec<u64>, ConfigError>)
    ensures
        match res {
            Ok(roles) => roles_model(items@) == Ok::<Seq<u64>, ConfigError>(roles@),
            Err(e) => roles_model(items@) == Err::<Seq<u64>, ConfigError>(e),
        },
{
    let mut roles: Vec<u64> = Vec::new();
    let mut i: usize = 0;
    assert(items@.take(0) =~= Seq::<YamlNode>::empty());
    while i < items.len()
        invariant
            i <= items@.len(),
            roles_model(items@.take(i as int)) == Ok::<Seq<u64>, ConfigError>(roles@),
        decreases items@.len() - i,
    {
        proof {
            assert(items@.take(i + 1).drop_last() =~= items@.take(i as int));
            assert(items@.take(i + 1).last() == items@[i as int]);
        }
        let role = match &items[i] {
            YamlNode::Text(text) => parse_u64(text.as_str()),
            _ => None,
        };
        match role {
            Some(role) => roles.push(role),
            None => {
                proof {
                    lemma_roles_error(items@, i + 1);
                }
                return Err(ConfigError::InvalidRoleId);
            },
        }
        i = i + 1;
    }
    assert(items@.take(i as int) =~= items@);
    Ok(roles)
}

/// Reads a rule from an item under `grants`.
pub fn get_grant(node: &YamlNode) -> (res: Result<Grant, ConfigError>)
    ensures
        agrees(res, grant_model(*node)),
{
    let emails = match text_at(node, "emails") {
        Some(s) => s,
        None => return Err(ConfigError::MissingEmails),
    };
    let roles = match node.field("roles") {
        Some(YamlNode::Array(items)) => get_roles(items)?,
        _ => return Err(ConfigError::RolesNotList),
    };
    Ok(Grant { emails, roles })
}

/// Reads the rules of a guild from the items under `grants`.
fn get_grants(items: &Vec<YamlNode>) -> (res: Result<Vec<Grant>, ConfigError>)
    ensures
        match res {
            Ok(grants) => grants_model(items@) == Ok::<Seq<GrantView>, ConfigError>(
                grant_views(grants@),
            ),
            Err(e) => grants_model(items@) == Err::<Seq<GrantView>, ConfigError>(e),
        },
{
    let mut grants: Vec<Grant> = Vec::new();
    let mut i: usize = 0;
    assert(items@.take(0) =~= Seq::<YamlNode>::empty());
    assert(grant_views(grants@) =~= Seq::<GrantView>::empty());
    while i < items.len()
        invariant
            i <= items@.len(),
            grants_model(items@.take(i as int)) == Ok::<Seq<GrantView>, ConfigError>(
                grant_views(grants@),
            ),
        decreases items@.len() - i,
    {
        proof {
            assert(items@.take(i + 1).drop_last() =~= items@.take(i as int));
            assert(items@.take(i + 1).last() == items@[i as int]);
        }
        match get_grant(&items[i]) {
            Ok(grant) => {
                let ghost before = grants@;
                grants.push(grant);
                assert(grant_views(grants@) =~= grant_views(before).push(grant@));
            },
            Err(e) => {
                proof {
                    lemma_grants_error(items@, i + 1);
                }
                return Err(e);
            },
        }
        i = i + 1;
    }
    assert(items@.take(i as int) =~= items@);
    Ok(grants)
}

/// Reads a guild from an item under `guilds`.
pub fn get_guild(node: &YamlNode) -> (res: Result<Guild, ConfigError>)
    ensures
        agrees(res, guild_model(*node)),
{
    let id_text = match text_at(node, "id") {
        Some(s) => s,
        None => return Err(ConfigError::MissingGuildId),
    };
    let id: u64 = match parse_u64(id_text.as_str()) {
        Some(n) => n,
        None => return Err(ConfigError::InvalidGuildId),
    };
    let grants = match node.field("grants") {
        Some(YamlNode::Array(items)) => get_grants(items)?,
        _ => return Err(ConfigError::GrantsNotList),
    };
    Ok(Guild { id, grants })
}

/// Whether one of `guilds` has the id `id`.
fn knows_guild(guilds: &Vec<Guild>, id: u64) -> (res: bool)
    ensures
        res == has_guild(guild_views(guilds@), id),
{
    let mut i: usize = 0;
    while i < guilds.len()
        invariant
            i <= guilds@.len(),
            forall|k: int| 0 <= k < i ==> (#[trigger] guild_views(guilds@)[k]).id != id,
        decreases guilds@.len() - i,
    {
        if guilds[i].id == id {
            assert(guild_views(guilds@)[i as int].id == id);
            return true;
        }
        i = i + 1;
    }
    false
}

/// Reads the guilds from the items under `guilds`.
fn get_guilds(items: &Vec<YamlNode>) -> (res: Result<Vec<Guild>, ConfigError>)
    ensures
        match res {
            Ok(guilds) => guilds_model(items@) == Ok::<Seq<GuildView>, ConfigError>(
                guild_views(guilds@),
            ),
            Err(e) => guilds_model(items@) == Err::<Seq<GuildView>, ConfigError>(e),
        },
{
    let mut guilds: Vec<Guild> = Vec::new();
    let mut i: usize = 0;
    assert(items@.take(0) =~= Seq::<YamlNode>::empty());
    assert(guild_views(guilds@) =~= Seq::<GuildView>::empty());
    while i < items.len()
        invariant
            i <= items@.len(),
            guilds_model(items@.take(i as int)) == Ok::<Seq<GuildView>, ConfigError>(
                guild_views(guilds@),
            ),
        decreases items@.len() - i,
    {
        proof {
            assert(items@.take(i + 1).drop_last() =~= items@.take(i as int));
            assert(items@.take(i + 1).last() == items@[i as int]);
        }
        match get_guild(&items[i]) {
            Ok(guild) => {
                if knows_guild(&guilds, guild.id) {
                    proof {
                        lemma_guilds_error(items@, i + 1);
                    }
                    return Err(ConfigError::DuplicateGuildId);
                }
                let ghost before = guilds@;
                guilds.push(guild);
                assert(guild_views(guilds@) =~= guild_views(before).push(guild@));
            },
            Err(e) => {
                proof {
                    lemma_guilds_error(items@, i + 1);
                }
                return Err(e);
            },
        }
        i = i + 1;
    }
    assert(items@.take(i as int) =~= items@);
    Ok(guilds)
}

/// Reads the lifetime of a token from a document.
pub(crate) fn get_lifetime(doc: &YamlNode) -> (res: Result<u64, ConfigError>)
    ensures
        res == lifetime_model(*doc),
{
    match doc.field("jwt_lifetime") {
        Some(YamlNode::Integer(minutes)) => {
            if *minutes >= 0 {
                Ok(*minutes as u64)
            } else {
                Err(ConfigError::InvalidLifetime)
            }
        },
        None | Some(YamlNode::BadValue) => Ok(DEFAULT_LIFETIME),
        _ => Err(ConfigError::LifetimeNotInteger),
    }
}

/// Reads the signing key from a document.
pub(crate) fn get_key(doc: &YamlNode) -> (res: Result<Vec<u8>, ConfigError>)
    ensures
        match res {
            Ok(key) => key_model(*doc) == Ok::<Seq<u8>, ConfigError>(key@),
            Err(e) => key_model(*doc) == Err::<Seq<u8>, ConfigError>(e),
        },
{
    let text = match text_at(doc, "jwt_key") {
        Some(s) => s,
        None => return Err(ConfigError::MissingKey),
    };
    let key = match decode_standard(text.as_str()) {
        Ok(bytes) => bytes,
        Err(_) => return Err(ConfigError::KeyNotBase64),
    };
    if key.len() < MIN_KEY_LEN {
        return Err(ConfigError::KeyTooShort);
    }
    Ok(key)
}

/// Reads the configuration from a YAML document. `root_dir` is the
/// directory that the document was found in.
pub fn config_of_document(doc: &YamlNode, root_dir: String) -> (res: Result<Config, ConfigError>)
    ensures
        agrees(res, document_model(*doc, root_dir@)),
        res matches Ok(cfg) ==> cfg@.wf(),
{
    let token = match text_at(doc, "token") {
        Some(s) => s,
        None => return Err(ConfigError::MissingToken),
    };
    let jwt_lifetime: u64 = get_lifetime(doc)?;
    let jwt_key = get_key(doc)?;
    let smtp = match doc.field("smtp") {
        None | Some(YamlNode::BadValue) => return Err(ConfigError::MissingSmtp),
        Some(node) => get_smtp(node)?,
    };
    let guilds = match doc.field("guilds") {
        None | Some(YamlNode::BadValue) => return Err(ConfigError::MissingGuilds),
        Some(YamlNode::Array(items)) => {
            proof {
                if guilds_model(items@) is Ok {
                    lemma_guilds_distinct(items@);
                }
            }
            get_guilds(items)?
        },
        Some(_) => return Err(ConfigError::GuildsNotList),
    };
    Ok(Config { root_dir, token, jwt_lifetime, jwt_key, smtp, guilds })
}

/// Reads the configuration from the text of a YAML file: from the first
/// document of the text. `root_dir` is the directory of the file.
pub fn parse_config(source: &str, root_dir: String) -> (res: Result<Config, ConfigError>)
    ensures
        agrees(res, config_model(source@, root_dir@)),
        res matches Ok(cfg) ==> cfg@.wf(),
{
    let docs = match load_yaml(source) {
        Ok(docs) => docs,
        Err(_) => return Err(ConfigError::Syntax),
    };
    if docs.len() == 0 {
        return Err(ConfigError::NoDocument);
    }
    config_of_document(&docs[0], root_dir)
}

/// The directory of the configuration, below the home directory `home`.
pub open spec fn root_dir_model(home: Seq<char>) -> Seq<char> {
    home + "/"@ + ".config/beebot"@
}

/// The path of the file `name` in the directory `dir`.
pub open spec fn path_model(dir: Seq<char>, name: Seq<char>) -> Seq<char> {
    dir + "/"@ + name
}

/// The directory of the configuration, below the home directory `home`.
pub fn root_dir_in(home: &str) -> (res: String)
    ensures
        res@ == root_dir_model(home@),
{
    let mut dir = home.to_owned();
    dir.append("/");
    dir.append(".config/beebot");
    dir
}

/// The path of the configuration file in the directory `root_dir`.
pub fn config_path(root_dir: &str) -> (res: String)
    ensures
        res@ == path_model(root_dir@, "config.yaml"@),
{
    let mut path = root_dir.to_owned();
    path.append("/");
    path.append("config.yaml");
    path
}

impl Config {
    /// The path of the list of addresses called `name`: a file in the
    /// directory of the configuration.
    pub fn list_path(&self, name: &str) -> (res: String)
        ensures
            res@ == path_model(self.root_dir@, name@),
    {
        let mut path = self.root_dir.clone();
        path.append("/");
        path.append(name);
        path
    }
}

impl ConfigError {
    /// Why the configuration is refused, in words.
    pub open spec fn text(self) -> Seq<char> {
        match self {
            ConfigError::Syntax => "the configuration is no YAML"@,
            ConfigError::NoDocument => "the configuration is empty"@,
            ConfigError::MissingToken => "<token> not defined in config file"@,
            ConfigError::LifetimeNotInteger => "<jwt_lifetime> should be an integer"@,
            ConfigError::InvalidLifetime => "<jwt_lifetime> is not valid"@,
            ConfigError::MissingKey => "<jwt_key> not defined in config file"@,
            ConfigError::KeyNotBase64 => "<jwt_key> is not valid base64"@,
            ConfigError::KeyTooShort => "<jwt_key> is too short"@,
            ConfigError::MissingSmtp => "<smtp> is not defined"@,
            ConfigError::MissingHost => "<host> is not defined"@,
            ConfigError::MissingPort => "<port> is not defined"@,
            ConfigError::InvalidPort => "<port> is invalid"@,
            ConfigError::MissingUser => "<user> is not defined"@,
            ConfigError::MissingPassword => "<password> is not defined"@,
            ConfigError::MissingGuilds => "<guilds> is not defined"@,
            ConfigError::MissingGuildId => "<id> is not defined"@,
            ConfigError::InvalidGuildId => "<id> is not a valid guild id"@,
            ConfigError::DuplicateGuildId => "<id> is the id of two guilds"@,
            ConfigError::MissingEmails => "<emails> is not defined"@,
            ConfigError::InvalidRoleId => "<roles> holds what is not a valid role id"@,
            ConfigError::GuildsNotList => "<guilds> is not a list"@,
            ConfigError::GrantsNotList => "<grants> is not a list"@,
            ConfigError::RolesNotList => "<roles> is not a list"@,
        }
    }

    /// Why the configuration is refused, in words.
    pub fn message(self) -> (res: String)
        ensures
            res@ == self.text(),
    {
        let text = match self {
            ConfigError::Syntax => "the configuration is no YAML",
            ConfigError::NoDocument => "the configuration is empty",
            ConfigError::MissingToken => "<token> not defined in config file",
            ConfigError::LifetimeNotInteger => "<jwt_lifetime> should be an integer",
            ConfigError::InvalidLifetime => "<jwt_lifetime> is not valid",
            ConfigError::MissingKey => "<jwt_key> not defined in config file",
            ConfigError::KeyNotBase64 => "<jwt_key> is not valid base64",
            ConfigError::KeyTooShort => "<jwt_key> is too short",
            ConfigError::MissingSmtp => "<smtp> is not defined",
            ConfigError::MissingHost => "<host> is not defined",
            ConfigError::MissingPort => "<port> is not defined",
            ConfigError::InvalidPort => "<port> is invalid",
            ConfigError::MissingUser => "<user> is not defined",
            ConfigError::MissingPassword => "<password> is not defined",
            ConfigError::MissingGuilds => "<guilds> is not defined",
            ConfigError::MissingGuildId => "<id> is not defined",
            ConfigError::InvalidGuildId => "<id> is not a valid guild id",
            ConfigError::DuplicateGuildId => "<id> is the id of two guilds",
            ConfigError::MissingEmails => "<emails> is not defined",
            ConfigError::InvalidRoleId => "<roles> holds what is not a valid role id",
            ConfigError::GuildsNotList => "<guilds> is not a list",
            ConfigError::GrantsNotList => "<grants> is not a list",
            ConfigError::RolesNotList => "<roles> is not a list",
        };
        text.to_owned()
    }
}

} // verus!
