use beebot::config::{Config, Grant, Guild, Smtp};
use beebot::flow::{
    grant, grant_at, grant_actions, has_roles, is_platform_id, redeem, redeem_at, request_grant,
    request_grant_at, Issuance,
};
use beebot::grants::{load_grants, Grants, IdentityLists, UserGrants};
use beebot::jwt::{IssueError, VerifyError};

const KEY: &[u8] = b"0123456789abcdef";

fn config() -> Config {
    Config {
        root_dir: String::from("/etc/beebot"),
        token: String::from("bot-token"),
        jwt_lifetime: 60,
        jwt_key: KEY.to_vec(),
        smtp: Smtp {
            host: String::from("smtp.example.com"),
            port: 587,
            user: String::from("bot@example.com"),
            password: String::from("secret"),
        },
        guilds: vec![
            Guild {
                id: 111,
                grants: vec![
                    Grant { emails: String::from("a.txt"), roles: vec![7, 8] },
                    Grant { emails: String::from("idle.txt"), roles: vec![] },
                ],
            },
            Guild { id: 222, grants: vec![Grant { emails: String::from("a.txt"), roles: vec![8, 9] }] },
        ],
    }
}

fn table() -> Grants {
    let mut lists = IdentityLists::new();
    lists.insert(String::from("a.txt"), vec![String::from("alice@example.com")]);
    lists.insert(String::from("idle.txt"), vec![String::from("dave@example.com")]);
    load_grants(&config(), &lists).unwrap()
}

fn token_of(issuance: Result<Issuance, IssueError>) -> String {
    match issuance {
        Ok(Issuance::Token(token)) => token,
        other => panic!("no token: {:?}", other),
    }
}

fn sorted(grants: &UserGrants) -> Vec<(u64, Vec<u64>)> {
    let mut all: Vec<(u64, Vec<u64>)> = grants
        .iter()
        .map(|(guild, roles)| {
            let mut roles = roles.clone();
            roles.sort();
            (*guild, roles)
        })
        .collect();
    all.sort();
    all
}

#[test]
fn example_from_table_to_roles() {
    let table = table();
    let token = token_of(request_grant_at("alice@example.com", &table, KEY, 60, 42, 1000));
    let grants = redeem_at(42, &token, KEY, 1000 + 59 * 60).unwrap();
    assert_eq!(sorted(&grants), vec![(111, vec![7, 8]), (222, vec![8, 9])]);
    assert_eq!(redeem_at(99, &token, KEY, 2000), Err(VerifyError::WrongPrincipal(42)));
    assert_eq!(redeem_at(42, &token, KEY, 1000 + 60 * 60), Err(VerifyError::Expired));
}

#[test]
fn unknown_address_gets_no_token() {
    let table = table();
    assert!(matches!(
        request_grant_at("bob@example.com", &table, KEY, 60, 42, 1000),
        Ok(Issuance::NoPermissions)
    ));
    assert!(matches!(request_grant("bob@example.com", &table, KEY, 60, 42), Ok(Issuance::NoPermissions)));
    assert!(matches!(request_grant("", &table, KEY, 60, 42), Ok(Issuance::NoPermissions)));
    assert!(matches!(
        request_grant("ALICE@example.com", &table, KEY, 60, 42),
        Ok(Issuance::NoPermissions)
    ));
}

#[test]
fn address_without_roles_gets_no_token() {
    let table = table();
    assert!(table.get("dave@example.com").is_none());
    assert!(matches!(
        request_grant_at("dave@example.com", &table, KEY, 60, 42, 1000),
        Ok(Issuance::NoPermissions)
    ));
    assert!(matches!(request_grant("dave@example.com", &table, KEY, 60, 42), Ok(Issuance::NoPermissions)));
    // not even where the expiry would not fit
    assert!(matches!(
        request_grant_at("dave@example.com", &table, KEY, u64::MAX, 42, 1000),
        Ok(Issuance::NoPermissions)
    ));
}

#[test]
fn empty_table_gives_no_token() {
    assert!(matches!(
        request_grant("alice@example.com", &Grants::new(), KEY, 60, 42),
        Ok(Issuance::NoPermissions)
    ));
}

#[test]
fn expiry_that_does_not_fit_is_an_error() {
    let table = table();
    assert!(matches!(
        request_grant_at("alice@example.com", &table, KEY, u64::MAX, 42, 1000),
        Err(IssueError::LifetimeTooLong)
    ));
}

#[test]
fn token_of_now_is_redeemed_now() {
    let table = table();
    let token = token_of(request_grant("alice@example.com", &table, KEY, 60, 42));
    assert_eq!(sorted(&redeem(42, &token, KEY).unwrap()), vec![(111, vec![7, 8]), (222, vec![8, 9])]);
    assert_eq!(redeem(43, &token, KEY), Err(VerifyError::WrongPrincipal(42)));
    assert_eq!(redeem(42, &token, b"fedcba9876543210"), Err(VerifyError::Invalid));
}

#[test]
fn token_is_redeemed_twice_alike() {
    let table = table();
    let token = token_of(request_grant_at("alice@example.com", &table, KEY, 60, 42, 1000));
    let first = redeem_at(42, &token, KEY, 1500).unwrap();
    let second = redeem_at(42, &token, KEY, 2500).unwrap();
    assert_eq!(first, second);
    let mut held: std::collections::BTreeSet<(u64, u64, u64)> = std::collections::BTreeSet::new();
    for (guild, role) in grant_actions(&first) {
        held.insert((42, guild, role));
    }
    let once = held.clone();
    for (guild, role) in grant_actions(&second) {
        held.insert((42, guild, role));
    }
    assert_eq!(held, once);
    assert_eq!(once.len(), 4);
}

#[test]
fn has_roles_looks_into_every_guild() {
    let mut grants = UserGrants::new();
    assert!(!has_roles(&grants));
    grants.insert(1, vec![]);
    grants.insert(2, vec![]);
    assert!(!has_roles(&grants));
    grants.insert(3, vec![4]);
    assert!(has_roles(&grants));
}

#[test]
fn actions_are_the_pairs_of_guild_and_role() {
    let mut grants = UserGrants::new();
    grants.insert(111, vec![7, 8]);
    grants.insert(222, vec![8, 9]);
    grants.insert(333, vec![]);
    let mut actions = grant_actions(&grants);
    actions.sort();
    assert_eq!(actions, vec![(111, 7), (111, 8), (222, 8), (222, 9)]);
    assert_eq!(grant_actions(&UserGrants::new()), Vec::<(u64, u64)>::new());
}

#[test]
fn actions_keep_the_order_of_the_roles_of_a_guild() {
    let mut grants = UserGrants::new();
    grants.insert(5, vec![3, 1, 2]);
    assert_eq!(grant_actions(&grants), vec![(5, 3), (5, 1), (5, 2)]);
}

#[test]
fn grant_asks_for_each_role_of_the_token() {
    let table = table();
    let token = token_of(request_grant_at("alice@example.com", &table, KEY, 60, 42, 1000));
    let mut actions = grant_at(42, &token, KEY, 2000).unwrap();
    actions.sort();
    assert_eq!(actions, vec![(111, 7), (111, 8), (222, 8), (222, 9)]);
    assert_eq!(grant_at(42, &token, KEY, 4600), Err(VerifyError::Expired));
    assert_eq!(grant_at(43, &token, KEY, 2000), Err(VerifyError::WrongPrincipal(42)));
    assert_eq!(grant_at(42, "no token", KEY, 2000), Err(VerifyError::Invalid));
}

#[test]
fn grant_twice_asks_for_the_same() {
    let table = table();
    let token = token_of(request_grant("alice@example.com", &table, KEY, 60, 42));
    let mut once = grant(42, &token, KEY).unwrap();
    let mut again = grant(42, &token, KEY).unwrap();
    once.sort();
    again.sort();
    assert_eq!(once, again);
    assert_eq!(once, vec![(111, 7), (111, 8), (222, 8), (222, 9)]);
    assert_eq!(grant(7, &token, KEY), Err(VerifyError::WrongPrincipal(42)));
}

#[test]
fn text_that_is_no_token_is_invalid_whatever_the_time() {
    assert_eq!(grant(42, "", KEY), Err(VerifyError::Invalid));
    assert_eq!(grant(42, "a.b.c", KEY), Err(VerifyError::Invalid));
    assert_eq!(redeem(42, "a.b.c", KEY), Err(VerifyError::Invalid));
    let table = table();
    let token = token_of(request_grant("alice@example.com", &table, KEY, 60, 42));
    assert_eq!(grant(42, &token, b"fedcba9876543210"), Err(VerifyError::Invalid));
}

#[test]
fn zero_is_no_id() {
    assert!(!is_platform_id(0));
    assert!(is_platform_id(1));
    assert!(is_platform_id(u64::MAX));
}
