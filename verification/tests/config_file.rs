use beebot::config::{
    config_path, parse_config, root_dir_in, Config, ConfigError, DEFAULT_LIFETIME, MIN_KEY_LEN,
};

const KEY: &str = "MDEyMzQ1Njc4OWFiY2RlZg==";

fn source(token: &str, lifetime: &str, key: &str, smtp: &str, guilds: &str) -> String {
    format!("{}{}{}{}{}", token, lifetime, key, smtp, guilds)
}

fn token_line() -> &'static str {
    "token: \"bot-token\"\n"
}

fn key_line() -> String {
    format!("jwt_key: \"{}\"\n", KEY)
}

fn smtp_block() -> &'static str {
    "smtp:\n  host: smtp.example.com\n  port: 587\n  user: bot@example.com\n  password: secret\n"
}

fn guilds_block() -> &'static str {
    "guilds:\n  - id: \"111\"\n    grants:\n      - emails: members.txt\n        roles: [\"7\", \"8\"]\n  - id: \"222\"\n    grants:\n      - emails: members.txt\n        roles: [\"8\", \"9\"]\n      - emails: board.txt\n        roles: [\"10\"]\n"
}

fn whole() -> String {
    source(token_line(), "jwt_lifetime: 30\n", &key_line(), smtp_block(), guilds_block())
}

fn parse(text: &str) -> Result<Config, ConfigError> {
    parse_config(text, String::from("/home/bee/.config/beebot"))
}

fn error_of(text: &str) -> ConfigError {
    match parse(text) {
        Ok(_) => panic!("accepted: {}", text),
        Err(e) => e,
    }
}

#[test]
fn whole_configuration_is_read() {
    let cfg = parse(&whole()).unwrap();
    assert_eq!(cfg.root_dir, "/home/bee/.config/beebot");
    assert_eq!(cfg.token, "bot-token");
    assert_eq!(cfg.jwt_lifetime, 30);
    assert_eq!(cfg.jwt_key, b"0123456789abcdef".to_vec());
    assert_eq!(cfg.smtp.host, "smtp.example.com");
    assert_eq!(cfg.smtp.port, 587);
    assert_eq!(cfg.smtp.user, "bot@example.com");
    assert_eq!(cfg.smtp.password, "secret");
    assert_eq!(cfg.guilds.len(), 2);
    assert_eq!(cfg.guilds[0].id, 111);
    assert_eq!(cfg.guilds[0].grants.len(), 1);
    assert_eq!(cfg.guilds[0].grants[0].emails, "members.txt");
    assert_eq!(cfg.guilds[0].grants[0].roles, vec![7, 8]);
    assert_eq!(cfg.guilds[1].id, 222);
    assert_eq!(cfg.guilds[1].grants.len(), 2);
    assert_eq!(cfg.guilds[1].grants[0].roles, vec![8, 9]);
    assert_eq!(cfg.guilds[1].grants[1].emails, "board.txt");
    assert_eq!(cfg.guilds[1].grants[1].roles, vec![10]);
}

#[test]
fn lifetime_defaults_to_an_hour() {
    let text = source(token_line(), "", &key_line(), smtp_block(), guilds_block());
    let cfg = parse(&text).unwrap();
    assert_eq!(cfg.jwt_lifetime, 60);
    assert_eq!(DEFAULT_LIFETIME, 60);
}

#[test]
fn lifetime_of_zero_is_kept() {
    let text = source(token_line(), "jwt_lifetime: 0\n", &key_line(), smtp_block(), guilds_block());
    assert_eq!(parse(&text).unwrap().jwt_lifetime, 0);
}

#[test]
fn text_that_is_no_yaml_is_refused() {
    assert_eq!(error_of("token: [unclosed"), ConfigError::Syntax);
}

#[test]
fn empty_text_has_no_document() {
    assert_eq!(error_of(""), ConfigError::NoDocument);
}

#[test]
fn first_document_counts() {
    let text = format!("{}---\ntoken: 5\n", whole());
    assert_eq!(parse(&text).unwrap().token, "bot-token");
}

#[test]
fn token_must_be_a_string() {
    let text = source("", "", &key_line(), smtp_block(), guilds_block());
    assert_eq!(error_of(&text), ConfigError::MissingToken);
    let text = source("token: 12\n", "", &key_line(), smtp_block(), guilds_block());
    assert_eq!(error_of(&text), ConfigError::MissingToken);
    assert_eq!(error_of("just a scalar"), ConfigError::MissingToken);
}

#[test]
fn lifetime_must_be_an_integer() {
    let text = source(token_line(), "jwt_lifetime: soon\n", &key_line(), smtp_block(), guilds_block());
    assert_eq!(error_of(&text), ConfigError::LifetimeNotInteger);
    let text = source(token_line(), "jwt_lifetime: 1.5\n", &key_line(), smtp_block(), guilds_block());
    assert_eq!(error_of(&text), ConfigError::LifetimeNotInteger);
}

#[test]
fn lifetime_must_not_be_negative() {
    let text = source(token_line(), "jwt_lifetime: -1\n", &key_line(), smtp_block(), guilds_block());
    assert_eq!(error_of(&text), ConfigError::InvalidLifetime);
}

#[test]
fn key_must_be_there() {
    let text = source(token_line(), "", "", smtp_block(), guilds_block());
    assert_eq!(error_of(&text), ConfigError::MissingKey);
    let text = source(token_line(), "", "jwt_key: 1234\n", smtp_block(), guilds_block());
    assert_eq!(error_of(&text), ConfigError::MissingKey);
}

#[test]
fn key_must_be_base64() {
    let text = source(token_line(), "", "jwt_key: \"not base64 at all!\"\n", smtp_block(), guilds_block());
    assert_eq!(error_of(&text), ConfigError::KeyNotBase64);
}

#[test]
fn key_must_have_sixteen_bytes() {
    // fifteen bytes
    let text = source(token_line(), "", "jwt_key: \"MDEyMzQ1Njc4OWFiY2Rl\"\n", smtp_block(), guilds_block());
    assert_eq!(error_of(&text), ConfigError::KeyTooShort);
    let text = source(token_line(), "", "jwt_key: \"\"\n", smtp_block(), guilds_block());
    assert_eq!(error_of(&text), ConfigError::KeyTooShort);
    // sixteen bytes
    let cfg = parse(&whole()).unwrap();
    assert_eq!(cfg.jwt_key.len(), 16);
    assert_eq!(MIN_KEY_LEN, 16);
}

#[test]
fn key_is_decoded_not_copied() {
    let cfg = parse(&whole()).unwrap();
    assert_ne!(cfg.jwt_key, KEY.as_bytes().to_vec());
    assert_eq!(cfg.jwt_key, b"0123456789abcdef".to_vec());
}

#[test]
fn smtp_must_be_there() {
    let text = source(token_line(), "", &key_line(), "", guilds_block());
    assert_eq!(error_of(&text), ConfigError::MissingSmtp);
}

#[test]
fn smtp_fields_are_asked_for_in_order() {
    let text = source(token_line(), "", &key_line(), "smtp:\n  port: 587\n", guilds_block());
    assert_eq!(error_of(&text), ConfigError::MissingHost);
    let text = source(token_line(), "", &key_line(), "smtp: none\n", guilds_block());
    assert_eq!(error_of(&text), ConfigError::MissingHost);
    let text = source(token_line(), "", &key_line(), "smtp:\n  host: h\n", guilds_block());
    assert_eq!(error_of(&text), ConfigError::MissingPort);
    let text = source(token_line(), "", &key_line(), "smtp:\n  host: h\n  port: \"587\"\n", guilds_block());
    assert_eq!(error_of(&text), ConfigError::MissingPort);
    let text = source(token_line(), "", &key_line(), "smtp:\n  host: h\n  port: 65536\n", guilds_block());
    assert_eq!(error_of(&text), ConfigError::InvalidPort);
    let text = source(token_line(), "", &key_line(), "smtp:\n  host: h\n  port: -1\n", guilds_block());
    assert_eq!(error_of(&text), ConfigError::InvalidPort);
    let text = source(token_line(), "", &key_line(), "smtp:\n  host: h\n  port: 25\n", guilds_block());
    assert_eq!(error_of(&text), ConfigError::MissingUser);
    let text = source(token_line(), "", &key_line(), "smtp:\n  host: h\n  port: 25\n  user: u\n", guilds_block());
    assert_eq!(error_of(&text), ConfigError::MissingPassword);
}

#[test]
fn port_bounds_are_accepted() {
    let text = source(token_line(), "", &key_line(), "smtp:\n  host: h\n  port: 65535\n  user: u\n  password: p\n", guilds_block());
    assert_eq!(parse(&text).unwrap().smtp.port, 65535);
    let text = source(token_line(), "", &key_line(), "smtp:\n  host: h\n  port: 0\n  user: u\n  password: p\n", guilds_block());
    assert_eq!(parse(&text).unwrap().smtp.port, 0);
}

#[test]
fn guilds_must_be_there() {
    let text = source(token_line(), "", &key_line(), smtp_block(), "");
    assert_eq!(error_of(&text), ConfigError::MissingGuilds);
}

#[test]
fn guilds_must_be_a_list() {
    let text = source(token_line(), "", &key_line(), smtp_block(), "guilds: none\n");
    assert_eq!(error_of(&text), ConfigError::GuildsNotList);
    let text = source(token_line(), "", &key_line(), smtp_block(), "guilds:\n  id: \"1\"\n");
    assert_eq!(error_of(&text), ConfigError::GuildsNotList);
    let text = source(token_line(), "", &key_line(), smtp_block(), "guilds: []\n");
    assert_eq!(parse(&text).unwrap().guilds.len(), 0);
}

#[test]
fn guild_id_must_be_a_string_of_digits() {
    let text = source(token_line(), "", &key_line(), smtp_block(), "guilds:\n  - grants: []\n");
    assert_eq!(error_of(&text), ConfigError::MissingGuildId);
    let text = source(token_line(), "", &key_line(), smtp_block(), "guilds:\n  - id: 111\n");
    assert_eq!(error_of(&text), ConfigError::MissingGuildId);
    let text = source(token_line(), "", &key_line(), smtp_block(), "guilds:\n  - id: \"11x\"\n");
    assert_eq!(error_of(&text), ConfigError::InvalidGuildId);
    let text = source(token_line(), "", &key_line(), smtp_block(), "guilds:\n  - id: \"18446744073709551616\"\n");
    assert_eq!(error_of(&text), ConfigError::InvalidGuildId);
}

#[test]
fn guild_without_rules_is_accepted() {
    let text = source(token_line(), "", &key_line(), smtp_block(), "guilds:\n  - id: \"5\"\n    grants: []\n");
    let cfg = parse(&text).unwrap();
    assert_eq!(cfg.guilds.len(), 1);
    assert_eq!(cfg.guilds[0].id, 5);
    assert_eq!(cfg.guilds[0].grants.len(), 0);
}

#[test]
fn rules_of_a_guild_must_be_a_list() {
    let text = source(token_line(), "", &key_line(), smtp_block(), "guilds:\n  - id: \"5\"\n");
    assert_eq!(error_of(&text), ConfigError::GrantsNotList);
    let text = source(token_line(), "", &key_line(), smtp_block(), "guilds:\n  - id: \"5\"\n    grants: all\n");
    assert_eq!(error_of(&text), ConfigError::GrantsNotList);
    let text = source(
        token_line(),
        "",
        &key_line(),
        smtp_block(),
        "guilds:\n  - id: \"5\"\n    grants:\n      emails: a.txt\n",
    );
    assert_eq!(error_of(&text), ConfigError::GrantsNotList);
}

#[test]
fn guild_ids_must_differ() {
    let text = source(
        token_line(),
        "",
        &key_line(),
        smtp_block(),
        "guilds:\n  - id: \"5\"\n    grants: []\n  - id: \"6\"\n    grants: []\n  - id: \"+5\"\n    grants: []\n",
    );
    assert_eq!(error_of(&text), ConfigError::DuplicateGuildId);
}

#[test]
fn rule_must_name_its_list() {
    let text = source(
        token_line(),
        "",
        &key_line(),
        smtp_block(),
        "guilds:\n  - id: \"5\"\n    grants:\n      - roles: [\"1\"]\n",
    );
    assert_eq!(error_of(&text), ConfigError::MissingEmails);
}

#[test]
fn roles_are_strings_of_digits() {
    let text = source(
        token_line(),
        "",
        &key_line(),
        smtp_block(),
        "guilds:\n  - id: \"5\"\n    grants:\n      - emails: a.txt\n        roles: [\"1\", \"two\"]\n",
    );
    assert_eq!(error_of(&text), ConfigError::InvalidRoleId);
}

#[test]
fn roles_that_are_no_strings_are_refused() {
    for roles in ["[7]", "[\"1\", 2]", "[true]", "[~]", "[1.5]", "[[\"1\"]]", "[{a: b}]"] {
        let text = source(
            token_line(),
            "",
            &key_line(),
            smtp_block(),
            &format!("guilds:\n  - id: \"5\"\n    grants:\n      - emails: a.txt\n        roles: {}\n", roles),
        );
        assert_eq!(error_of(&text), ConfigError::InvalidRoleId, "{}", roles);
    }
}

#[test]
fn roles_of_a_rule_must_be_a_list() {
    for rule in ["      - emails: a.txt\n", "      - emails: a.txt\n        roles: \"7\"\n", "      - emails: a.txt\n        roles: 7\n"] {
        let text = source(
            token_line(),
            "",
            &key_line(),
            smtp_block(),
            &format!("guilds:\n  - id: \"5\"\n    grants:\n{}", rule),
        );
        assert_eq!(error_of(&text), ConfigError::RolesNotList, "{}", rule);
    }
    let text = source(
        token_line(),
        "",
        &key_line(),
        smtp_block(),
        "guilds:\n  - id: \"5\"\n    grants:\n      - emails: a.txt\n        roles: []\n",
    );
    assert_eq!(parse(&text).unwrap().guilds[0].grants[0].roles, Vec::<u64>::new());
}

#[test]
fn first_error_in_the_order_of_the_fields_decides() {
    // no token and no key: the token is asked for first
    let text = source("", "jwt_lifetime: -1\n", "", "", "");
    assert_eq!(error_of(&text), ConfigError::MissingToken);
    // a bad lifetime comes before a missing key
    let text = source(token_line(), "jwt_lifetime: -1\n", "", "", "");
    assert_eq!(error_of(&text), ConfigError::InvalidLifetime);
    // a bad rule of the first guild comes before the bad id of the second
    let text = source(
        token_line(),
        "",
        &key_line(),
        smtp_block(),
        "guilds:\n  - id: \"5\"\n    grants:\n      - roles: []\n  - id: \"x\"\n",
    );
    assert_eq!(error_of(&text), ConfigError::MissingEmails);
}

#[test]
fn paths_are_put_together() {
    assert_eq!(root_dir_in("/home/bee"), "/home/bee/.config/beebot");
    assert_eq!(config_path("/home/bee/.config/beebot"), "/home/bee/.config/beebot/config.yaml");
    let cfg = parse(&whole()).unwrap();
    assert_eq!(cfg.list_path("members.txt"), "/home/bee/.config/beebot/members.txt");
}
