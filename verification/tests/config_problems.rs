use beebot::config::{parse_config, ConfigError};
use beebot::problems::{check_config, config_problems};
use beebot::yaml::YamlNode;

const GOOD: &str = "token: t\njwt_key: \"MDEyMzQ1Njc4OWFiY2RlZg==\"\nsmtp:\n  host: h\n  port: 25\n  user: u\n  password: p\nguilds:\n  - id: \"1\"\n    grants:\n      - emails: a.txt\n        roles: [\"7\"]\n";

#[test]
fn accepted_configuration_has_no_problems() {
    assert!(parse_config(GOOD, String::new()).is_ok());
    assert_eq!(check_config(GOOD), Vec::<ConfigError>::new());
}

#[test]
fn text_that_is_not_read_has_one_problem() {
    assert_eq!(check_config("token: [unclosed"), vec![ConfigError::Syntax]);
    assert_eq!(check_config(""), vec![ConfigError::NoDocument]);
}

#[test]
fn every_missing_field_is_told() {
    assert_eq!(
        check_config("other: 1\n"),
        vec![
            ConfigError::MissingToken,
            ConfigError::MissingKey,
            ConfigError::MissingSmtp,
            ConfigError::MissingGuilds,
        ]
    );
    assert_eq!(
        config_problems(&YamlNode::Null),
        vec![
            ConfigError::MissingToken,
            ConfigError::MissingKey,
            ConfigError::MissingSmtp,
            ConfigError::MissingGuilds,
        ]
    );
}

#[test]
fn problems_come_in_the_order_of_the_fields() {
    let text = "jwt_lifetime: -5\njwt_key: \"MDEy\"\nsmtp:\n  port: 70000\n  user: u\nguilds:\n  - id: \"1\"\n    grants:\n      - roles: [\"7\", \"x\", 3, \"y\"]\n      - emails: b.txt\n  - grants:\n      - emails: c.txt\n        roles: [\"\"]\n  - id: \"one\"\n  - id: \"1\"\n    grants: []\n  - id: \"01\"\n    grants:\n      - roles: []\n";
    assert_eq!(
        check_config(text),
        vec![
            ConfigError::MissingToken,
            ConfigError::InvalidLifetime,
            ConfigError::KeyTooShort,
            ConfigError::MissingHost,
            ConfigError::InvalidPort,
            ConfigError::MissingPassword,
            // the first guild: its first rule, then its second
            ConfigError::MissingEmails,
            ConfigError::InvalidRoleId,
            ConfigError::InvalidRoleId,
            ConfigError::InvalidRoleId,
            ConfigError::RolesNotList,
            // the second guild
            ConfigError::MissingGuildId,
            ConfigError::InvalidRoleId,
            // the third
            ConfigError::InvalidGuildId,
            ConfigError::GrantsNotList,
            // the fourth
            ConfigError::DuplicateGuildId,
            // the fifth
            ConfigError::MissingEmails,
            ConfigError::DuplicateGuildId,
        ]
    );
}

#[test]
fn what_is_no_list_is_told() {
    assert_eq!(
        check_config("token: t\njwt_key: \"MDEyMzQ1Njc4OWFiY2RlZg==\"\nsmtp:\n  host: h\n  port: 25\n  user: u\n  password: p\nguilds: all\n"),
        vec![ConfigError::GuildsNotList]
    );
    assert_eq!(
        check_config("token: t\njwt_key: \"MDEyMzQ1Njc4OWFiY2RlZg==\"\nsmtp:\n  host: h\n  port: 25\n  user: u\n  password: p\nguilds:\n  - id: \"1\"\n    grants:\n      - emails: a.txt\n        roles: [7]\n"),
        vec![ConfigError::InvalidRoleId]
    );
}

#[test]
fn first_problem_is_the_error_of_reading() {
    for text in [
        "other: 1\n",
        "token: t\njwt_lifetime: x\n",
        "token: t\njwt_key: \"!\"\n",
        "token: t\njwt_key: \"MDEyMzQ1Njc4OWFiY2RlZg==\"\nsmtp:\n  host: h\n",
        "token: t\njwt_key: \"MDEyMzQ1Njc4OWFiY2RlZg==\"\nsmtp:\n  host: h\n  port: 25\n  user: u\n  password: p\n",
        "token: t\njwt_key: \"MDEyMzQ1Njc4OWFiY2RlZg==\"\nsmtp:\n  host: h\n  port: 25\n  user: u\n  password: p\nguilds:\n  - id: \"1\"\n  - id: \"1\"\n    grants:\n      - roles: []\n",
        "token: t\njwt_key: \"MDEyMzQ1Njc4OWFiY2RlZg==\"\nsmtp:\n  host: h\n  port: 25\n  user: u\n  password: p\nguilds:\n  - id: \"1\"\n  - id: \"1\"\n",
        "",
        "{",
    ] {
        let first = parse_config(text, String::new()).err();
        assert!(first.is_some(), "{}", text);
        assert_eq!(check_config(text).first().copied(), first, "{}", text);
    }
}
