use beebot::config::{config_of_document, get_grant, get_guild, get_smtp, ConfigError};
use beebot::yaml::YamlNode;

fn text(s: &str) -> YamlNode {
    YamlNode::Text(String::from(s))
}

fn hash(entries: Vec<(&str, YamlNode)>) -> YamlNode {
    YamlNode::Hash(entries.into_iter().map(|(k, v)| (text(k), v)).collect())
}

fn smtp() -> YamlNode {
    hash(vec![
        ("host", text("smtp.example.com")),
        ("port", YamlNode::Integer(465)),
        ("user", text("bot@example.com")),
        ("password", text("secret")),
    ])
}

#[test]
fn field_of_a_hash() {
    let node = hash(vec![("a", YamlNode::Integer(1)), ("b", YamlNode::Null), ("a", YamlNode::Integer(2))]);
    assert!(matches!(node.field("a"), Some(YamlNode::Integer(1))));
    assert!(matches!(node.field("b"), Some(YamlNode::Null)));
    assert!(node.field("c").is_none());
    assert!(node.field("").is_none());
    assert!(node.field("A").is_none());
}

#[test]
fn field_of_what_is_no_hash() {
    assert!(text("a").field("a").is_none());
    assert!(YamlNode::Array(vec![text("a")]).field("a").is_none());
    assert!(YamlNode::BadValue.field("a").is_none());
}

#[test]
fn keys_that_are_no_strings_are_not_found() {
    let node = YamlNode::Hash(vec![
        (YamlNode::Integer(1), text("number")),
        (YamlNode::Real(String::from("1")), text("real")),
        (text("1"), text("string")),
    ]);
    assert_eq!(node.field("1").unwrap().to_text(), Some(String::from("string")));
}

#[test]
fn text_of_a_scalar() {
    assert_eq!(text("abc").to_text(), Some(String::from("abc")));
    assert_eq!(text("").to_text(), Some(String::new()));
    assert_eq!(YamlNode::Integer(5).to_text(), None);
    assert_eq!(YamlNode::Real(String::from("1.5")).to_text(), None);
    assert_eq!(YamlNode::Boolean(true).to_text(), None);
    assert_eq!(YamlNode::Null.to_text(), None);
}

#[test]
fn smtp_from_a_node() {
    let relay = get_smtp(&smtp()).unwrap();
    assert_eq!(relay.host, "smtp.example.com");
    assert_eq!(relay.port, 465);
    assert_eq!(relay.user, "bot@example.com");
    assert_eq!(relay.password, "secret");
    assert_eq!(get_smtp(&YamlNode::Null).err(), Some(ConfigError::MissingHost));
    let no_port = hash(vec![("host", text("h")), ("port", text("465"))]);
    assert_eq!(get_smtp(&no_port).err(), Some(ConfigError::MissingPort));
    let bad_port = hash(vec![("host", text("h")), ("port", YamlNode::Integer(i64::MAX))]);
    assert_eq!(get_smtp(&bad_port).err(), Some(ConfigError::InvalidPort));
    let bad_port = hash(vec![("host", text("h")), ("port", YamlNode::Integer(i64::MIN))]);
    assert_eq!(get_smtp(&bad_port).err(), Some(ConfigError::InvalidPort));
}

#[test]
fn grant_from_a_node() {
    let node = hash(vec![
        ("emails", text("members.txt")),
        ("roles", YamlNode::Array(vec![text("1"), text("+3"), text("1")])),
    ]);
    let rule = get_grant(&node).unwrap();
    assert_eq!(rule.emails, "members.txt");
    assert_eq!(rule.roles, vec![1, 3, 1]);
    let number = hash(vec![("emails", text("l1")), ("roles", YamlNode::Array(vec![YamlNode::Integer(7)]))]);
    assert_eq!(get_grant(&number).err(), Some(ConfigError::InvalidRoleId));
    let no_list = hash(vec![("emails", text("members.txt")), ("roles", text("1"))]);
    assert_eq!(get_grant(&no_list).err(), Some(ConfigError::RolesNotList));
    let no_roles = hash(vec![("emails", text("members.txt"))]);
    assert_eq!(get_grant(&no_roles).err(), Some(ConfigError::RolesNotList));
    let bad_role = hash(vec![("emails", text("m")), ("roles", YamlNode::Array(vec![text("")]))]);
    assert_eq!(get_grant(&bad_role).err(), Some(ConfigError::InvalidRoleId));
    assert_eq!(get_grant(&hash(vec![])).err(), Some(ConfigError::MissingEmails));
}

#[test]
fn guild_from_a_node() {
    let rule = |list: &str| hash(vec![("emails", text(list)), ("roles", YamlNode::Array(vec![]))]);
    let node = hash(vec![
        ("id", text("18446744073709551615")),
        ("grants", YamlNode::Array(vec![rule("a"), rule("b")])),
    ]);
    let guild = get_guild(&node).unwrap();
    assert_eq!(guild.id, u64::MAX);
    assert_eq!(guild.grants.len(), 2);
    assert_eq!(guild.grants[1].emails, "b");
    let bad_rule = hash(vec![("id", text("1")), ("grants", YamlNode::Array(vec![YamlNode::Null]))]);
    assert_eq!(get_guild(&bad_rule).err(), Some(ConfigError::MissingEmails));
    let no_rules = hash(vec![("id", text("1"))]);
    assert_eq!(get_guild(&no_rules).err(), Some(ConfigError::GrantsNotList));
    let bad_id = hash(vec![("id", text("-1"))]);
    assert_eq!(get_guild(&bad_id).err(), Some(ConfigError::InvalidGuildId));
    assert_eq!(get_guild(&text("1")).err(), Some(ConfigError::MissingGuildId));
}

#[test]
fn configuration_from_a_document() {
    let doc = hash(vec![
        ("token", text("t")),
        ("jwt_key", text("MDEyMzQ1Njc4OWFiY2RlZg==")),
        ("smtp", smtp()),
        ("guilds", YamlNode::Array(vec![hash(vec![("id", text("7")), ("grants", YamlNode::Array(vec![]))])])),
    ]);
    let cfg = config_of_document(&doc, String::from("/srv")).unwrap();
    assert_eq!(cfg.root_dir, "/srv");
    assert_eq!(cfg.jwt_lifetime, 60);
    assert_eq!(cfg.jwt_key.len(), 16);
    assert_eq!(cfg.guilds[0].id, 7);
}

#[test]
fn bad_value_stands_for_what_is_missing() {
    let doc = hash(vec![
        ("token", text("t")),
        ("jwt_lifetime", YamlNode::BadValue),
        ("jwt_key", text("MDEyMzQ1Njc4OWFiY2RlZg==")),
        ("smtp", YamlNode::BadValue),
    ]);
    assert_eq!(config_of_document(&doc, String::new()).err(), Some(ConfigError::MissingSmtp));
    let doc = hash(vec![
        ("token", text("t")),
        ("jwt_lifetime", YamlNode::Null),
        ("jwt_key", text("MDEyMzQ1Njc4OWFiY2RlZg==")),
    ]);
    assert_eq!(config_of_document(&doc, String::new()).err(), Some(ConfigError::LifetimeNotInteger));
    let doc = hash(vec![
        ("token", text("t")),
        ("jwt_key", text("MDEyMzQ1Njc4OWFiY2RlZg==")),
        ("smtp", smtp()),
        ("guilds", YamlNode::BadValue),
    ]);
    assert_eq!(config_of_document(&doc, String::new()).err(), Some(ConfigError::MissingGuilds));
}

#[test]
fn guilds_of_a_document_must_be_a_list() {
    let doc = hash(vec![
        ("token", text("t")),
        ("jwt_key", text("MDEyMzQ1Njc4OWFiY2RlZg==")),
        ("smtp", smtp()),
        ("guilds", YamlNode::Null),
    ]);
    assert_eq!(config_of_document(&doc, String::new()).err(), Some(ConfigError::GuildsNotList));
}
