use beebot::config::{Config, Grant, Guild, Smtp};
use beebot::grants::{add_roles, identities_of, list_names, load_grants, Grants, IdentityLists, UserGrants};

fn config(guilds: Vec<Guild>) -> Config {
    Config {
        root_dir: String::from("/etc/beebot"),
        token: String::from("bot-token"),
        jwt_lifetime: 60,
        jwt_key: b"0123456789abcdef".to_vec(),
        smtp: Smtp {
            host: String::from("smtp.example.com"),
            port: 587,
            user: String::from("bot@example.com"),
            password: String::from("secret"),
        },
        guilds,
    }
}

fn rule(emails: &str, roles: Vec<u64>) -> Grant {
    Grant { emails: String::from(emails), roles }
}

fn lines(items: &[&str]) -> Vec<String> {
    items.iter().map(|s| String::from(*s)).collect()
}

fn sorted(roles: &Vec<u64>) -> Vec<u64> {
    let mut copy = roles.clone();
    copy.sort();
    copy
}

#[test]
fn example_of_two_guilds() {
    let cfg = config(vec![
        Guild { id: 111, grants: vec![rule("a.txt", vec![7, 8])] },
        Guild { id: 222, grants: vec![rule("b.txt", vec![8, 9])] },
    ]);
    let mut lists = IdentityLists::new();
    lists.insert(String::from("a.txt"), lines(&["alice@example.com"]));
    lists.insert(String::from("b.txt"), lines(&["alice@example.com"]));
    let table = load_grants(&cfg, &lists).unwrap();
    let alice = table.get("alice@example.com").unwrap();
    assert_eq!(alice.len(), 2);
    assert_eq!(sorted(&alice[&111]), vec![7, 8]);
    assert_eq!(sorted(&alice[&222]), vec![8, 9]);
    assert!(table.get("bob@example.com").is_none());
}

#[test]
fn overlapping_rules_give_each_role_once() {
    let cfg = config(vec![
        Guild {
            id: 1,
            grants: vec![
                rule("a.txt", vec![7, 8, 7]),
                rule("b.txt", vec![8, 9]),
                rule("a.txt", vec![9, 7, 10]),
            ],
        },
        Guild { id: 2, grants: vec![rule("b.txt", vec![7])] },
    ]);
    let mut lists = IdentityLists::new();
    lists.insert(String::from("a.txt"), lines(&["alice@example.com", "carol@example.com"]));
    lists.insert(String::from("b.txt"), lines(&["bob@example.com", "alice@example.com"]));
    let table = load_grants(&cfg, &lists).unwrap();
    let alice = table.get("alice@example.com").unwrap();
    assert_eq!(alice[&1].len(), 4);
    assert_eq!(sorted(&alice[&1]), vec![7, 8, 9, 10]);
    assert_eq!(alice[&2], vec![7]);
    let bob = table.get("bob@example.com").unwrap();
    assert_eq!(sorted(&bob[&1]), vec![8, 9]);
    assert_eq!(bob[&2], vec![7]);
    let carol = table.get("carol@example.com").unwrap();
    assert_eq!(carol.len(), 1);
    assert_eq!(sorted(&carol[&1]), vec![7, 8, 9, 10]);
}

#[test]
fn address_listed_twice_counts_once() {
    let cfg = config(vec![Guild { id: 1, grants: vec![rule("a.txt", vec![3, 4])] }]);
    let mut lists = IdentityLists::new();
    lists.insert(
        String::from("a.txt"),
        lines(&["alice@example.com", "alice@example.com", "alice@example.com"]),
    );
    let table = load_grants(&cfg, &lists).unwrap();
    assert_eq!(table.get("alice@example.com").unwrap()[&1], vec![3, 4]);
}

#[test]
fn addresses_are_told_apart_by_case() {
    let cfg = config(vec![Guild { id: 1, grants: vec![rule("a.txt", vec![3])] }]);
    let mut lists = IdentityLists::new();
    lists.insert(String::from("a.txt"), lines(&["Alice@example.com"]));
    let table = load_grants(&cfg, &lists).unwrap();
    assert!(table.get("Alice@example.com").is_some());
    assert!(table.get("alice@example.com").is_none());
    assert!(table.get("Alice@example.com ").is_none());
}

#[test]
fn rule_without_roles_gives_nothing() {
    let cfg = config(vec![
        Guild { id: 1, grants: vec![rule("a.txt", vec![])] },
        Guild { id: 2, grants: vec![rule("a.txt", vec![5]), rule("b.txt", vec![])] },
        Guild { id: 3, grants: vec![rule("a.txt", vec![])] },
    ]);
    let mut lists = IdentityLists::new();
    lists.insert(String::from("a.txt"), lines(&["alice@example.com"]));
    lists.insert(String::from("b.txt"), lines(&["alice@example.com", "bob@example.com"]));
    let table = load_grants(&cfg, &lists).unwrap();
    let alice = table.get("alice@example.com").unwrap();
    assert_eq!(alice.len(), 1);
    assert_eq!(alice[&2], vec![5]);
    assert!(alice.get(&1).is_none());
    assert!(alice.get(&3).is_none());
    assert!(table.get("bob@example.com").is_none());
}

#[test]
fn every_entry_holds_a_role() {
    let cfg = config(vec![
        Guild { id: 1, grants: vec![rule("a.txt", vec![]), rule("a.txt", vec![4, 4])] },
        Guild { id: 2, grants: vec![rule("b.txt", vec![])] },
    ]);
    let mut lists = IdentityLists::new();
    lists.insert(String::from("a.txt"), lines(&["alice@example.com", "bob@example.com"]));
    lists.insert(String::from("b.txt"), lines(&["carol@example.com", "alice@example.com"]));
    let table = load_grants(&cfg, &lists).unwrap();
    for identity in ["alice@example.com", "bob@example.com"] {
        let user = table.get(identity).unwrap();
        assert_eq!(user.len(), 1);
        for roles in user.values() {
            assert_eq!(roles, &vec![4]);
        }
    }
    assert!(table.get("carol@example.com").is_none());
}

#[test]
fn missing_list_gives_no_table() {
    let cfg = config(vec![
        Guild { id: 1, grants: vec![rule("a.txt", vec![1])] },
        Guild { id: 2, grants: vec![rule("b.txt", vec![2])] },
    ]);
    let mut lists = IdentityLists::new();
    lists.insert(String::from("a.txt"), lines(&["alice@example.com"]));
    assert!(load_grants(&cfg, &lists).is_none());
    lists.insert(String::from("b.txt"), lines(&[]));
    assert!(load_grants(&cfg, &lists).is_some());
}

#[test]
fn no_guilds_give_an_empty_table() {
    let cfg = config(vec![]);
    let table = load_grants(&cfg, &IdentityLists::new()).unwrap();
    assert!(table.get("alice@example.com").is_none());
    assert!(Grants::new().get("alice@example.com").is_none());
}

#[test]
fn later_list_under_a_name_replaces_the_earlier() {
    let cfg = config(vec![Guild { id: 1, grants: vec![rule("a.txt", vec![1])] }]);
    let mut lists = IdentityLists::new();
    lists.insert(String::from("a.txt"), lines(&["alice@example.com"]));
    lists.insert(String::from("a.txt"), lines(&["bob@example.com"]));
    assert_eq!(lists.get("a.txt").unwrap(), &lines(&["bob@example.com"]));
    assert!(lists.get("b.txt").is_none());
    let table = load_grants(&cfg, &lists).unwrap();
    assert!(table.get("alice@example.com").is_none());
    assert!(table.get("bob@example.com").is_some());
}

#[test]
fn rules_are_applied_in_their_order() {
    let cfg = config(vec![
        Guild {
            id: 1,
            grants: vec![rule("a.txt", vec![5, 6]), rule("b.txt", vec![6]), rule("a.txt", vec![6, 7])],
        },
        Guild { id: 2, grants: vec![rule("a.txt", vec![])] },
        Guild { id: 3, grants: vec![rule("c.txt", vec![9, 9])] },
    ]);
    let mut lists = IdentityLists::new();
    lists.insert(String::from("a.txt"), lines(&["alice@example.com"]));
    lists.insert(String::from("b.txt"), lines(&["bob@example.com"]));
    lists.insert(String::from("c.txt"), lines(&["bob@example.com", "carol@example.com"]));
    let table = load_grants(&cfg, &lists).unwrap();
    let alice = table.get("alice@example.com").unwrap();
    assert_eq!(alice[&1], vec![5, 6, 7]);
    assert!(alice.get(&2).is_none());
    assert!(alice.get(&3).is_none());
    let bob = table.get("bob@example.com").unwrap();
    assert_eq!(bob[&1], vec![6]);
    assert_eq!(bob[&3], vec![9]);
    assert_eq!(table.get("carol@example.com").unwrap()[&3], vec![9]);
}

#[test]
fn roles_join_those_held() {
    let mut user: UserGrants = UserGrants::new();
    add_roles(&mut user, 4, &vec![1, 2, 1]);
    assert_eq!(user[&4], vec![1, 2]);
    add_roles(&mut user, 4, &vec![2, 3]);
    assert_eq!(user[&4], vec![1, 2, 3]);
    add_roles(&mut user, 5, &vec![]);
    assert!(user.get(&5).is_none());
    add_roles(&mut user, 4, &vec![]);
    assert_eq!(user[&4], vec![1, 2, 3]);
    assert_eq!(user.len(), 1);
}

#[test]
fn list_names_come_rule_by_rule() {
    let cfg = config(vec![
        Guild { id: 1, grants: vec![rule("a.txt", vec![1]), rule("b.txt", vec![])] },
        Guild { id: 2, grants: vec![] },
        Guild { id: 3, grants: vec![rule("a.txt", vec![2])] },
    ]);
    assert_eq!(list_names(&cfg), lines(&["a.txt", "b.txt", "a.txt"]));
    assert_eq!(list_names(&config(vec![])), Vec::<String>::new());
}

#[test]
fn empty_lines_are_no_addresses() {
    assert_eq!(
        identities_of(lines(&["", "alice@example.com", "", "", "bob@example.com", ""])),
        lines(&["alice@example.com", "bob@example.com"])
    );
    assert_eq!(identities_of(lines(&[" "])), lines(&[" "]));
    assert_eq!(identities_of(lines(&[])), Vec::<String>::new());
}
