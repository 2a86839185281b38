use rust_digger::cargo_toml::{Cargo, ManifestOutcome, ReleasedManifests};
use rust_digger::crates::{
    add_cargo_toml_to_crates, add_owners_to_crates, default_false, empty_cargo,
    empty_crate_details, empty_details, empty_string, get_default_bold, get_default_count,
    get_default_percentage, get_zero, index_crate_owners, newest_first, team_to_user, Crate,
    CrateDetails, CrateOwner, Details, Team, User, VCSDetails,
};
use rust_digger::order::{apply_order, stable_order};
use rust_digger::text_map::{TextMap, TextSet};
use rust_digger::timer::ElapsedTimer;
use rust_digger::top::{largest_first, size_fields};

fn named(name: &str) -> Crate {
    let mut c = Crate::new();
    c.name = name.to_string();
    c
}

#[test]
fn text_map_reads_back_writes() {
    let mut m: TextMap<u32> = TextMap::new();
    m.insert("b".to_string(), 2);
    m.insert("a".to_string(), 1);
    m.insert("b".to_string(), 3);
    assert_eq!(m.len(), 2);
    assert_eq!(m.get("b"), Some(&3));
    assert!(m.contains_key("a"));
    let keys: Vec<&str> = m.entries().iter().map(|e| e.0.as_str()).collect();
    assert_eq!(keys, vec!["a", "b"]);
    assert_eq!(m.remove("a"), Some(1));
    assert_eq!(m.remove("a"), None);
    assert_eq!(m.get("a"), None);
    let mut set = TextSet::new();
    set.insert("x");
    assert!(set.contains("x"));
    assert!(!set.contains("y"));
}

#[test]
fn stable_sorting() {
    let keys = vec![
        (2u64, "b".to_string()),
        (1, "z".to_string()),
        (2, "a".to_string()),
        (1, "z".to_string()),
    ];
    assert_eq!(stable_order(&keys, false), vec![1, 3, 2, 0]);
    assert_eq!(stable_order(&keys, true), vec![0, 2, 1, 3]);
    let items = vec!["p", "q", "r", "s"];
    assert_eq!(apply_order(items, &vec![1, 3, 2, 0]), vec!["q", "s", "r", "p"]);
}

#[test]
fn defaults() {
    assert!(!get_default_bold());
    assert_eq!(get_default_count(), 0);
    assert_eq!(get_default_percentage(), "0");
    assert!(!empty_details().has_github_action);
    assert!(empty_cargo().dependencies.is_none());
    assert_eq!(empty_crate_details().size, 0);
    assert_eq!(empty_string(), "");
    assert_eq!(get_zero(), 0);
    assert!(!default_false());
    let d = Details::new();
    assert!(!d.has_github_action && !d.has_gitlab_pipeline);
    assert_eq!(d.commit_count, 0);
    assert_eq!(d.cargo_fix, "");
    assert!(CrateDetails::new().nonstandard_folders.is_empty());
    assert_eq!(VCSDetails::new().git_clone_error, "");
}

#[test]
fn timer_keeps_its_name() {
    let timer = ElapsedTimer::new("analyze");
    assert_eq!(timer.name(), "analyze");
    let _ = timer.elapsed_millis();
}

#[test]
fn released_manifests_are_recorded() {
    let mut released = ReleasedManifests::new();
    let mut cargo = Cargo::new();
    cargo.package.name = "serde".to_string();
    released.record(ManifestOutcome::Loaded(cargo));
    released.record(ManifestOutcome::Named { name: "rand".to_string(), error: "bad".to_string() });
    released.record(ManifestOutcome::Nameless { folder: "\"x-1.0\"".to_string(), error: "worse".to_string() });
    released.record(ManifestOutcome::Named { name: "rand".to_string(), error: "worst".to_string() });
    assert_eq!(released.released.len(), 1);
    assert_eq!(released.released[0].package.name, "serde");
    assert_eq!(released.errors.get("rand"), Some(&"worst".to_string()));
    assert_eq!(released.nameless.get("\"x-1.0\""), Some(&"worse".to_string()));
}

#[test]
fn manifests_join_their_crates() {
    let crates = vec![named("a"), named("b")];
    let mut first = Cargo::new();
    first.package.name = "a".to_string();
    first.package.version = "1.0.0".to_string();
    let mut second = Cargo::new();
    second.package.name = "a".to_string();
    second.package.version = "2.0.0".to_string();
    let updated = add_cargo_toml_to_crates(crates, &vec![first, second]);
    assert_eq!(updated[0].cargo.package.version, "2.0.0");
    assert_eq!(updated[1].cargo.package.name, "");
}

#[test]
fn owners_join_their_crates() {
    let records = vec![
        CrateOwner {
            crate_id: "1".to_string(),
            created_at: String::new(),
            created_by: String::new(),
            owner_id: "10".to_string(),
            owner_kind: "0".to_string(),
        },
        CrateOwner {
            crate_id: "2".to_string(),
            created_at: String::new(),
            created_by: String::new(),
            owner_id: "10".to_string(),
            owner_kind: "0".to_string(),
        },
        CrateOwner {
            crate_id: "1".to_string(),
            created_at: String::new(),
            created_by: String::new(),
            owner_id: "11".to_string(),
            owner_kind: "0".to_string(),
        },
    ];
    let (owner_by_crate, crates_by_owner) = index_crate_owners(&records);
    assert_eq!(owner_by_crate.get("1"), Some(&"11".to_string()));
    assert_eq!(crates_by_owner.get("10"), Some(&vec!["1".to_string(), "2".to_string()]));
    let users = vec![User {
        gh_avatar: "av".to_string(),
        gh_id: "g".to_string(),
        gh_login: "bob".to_string(),
        id: "10".to_string(),
        name: "Bob".to_string(),
        count: 0,
    }];
    let mut a = named("a");
    a.id = "1".to_string();
    let mut b = named("b");
    b.id = "2".to_string();
    let mut crates = vec![a, b];
    add_owners_to_crates(&mut crates, &users, &owner_by_crate);
    assert_eq!(crates[0].owner_gh_login, "");
    assert_eq!(crates[1].owner_gh_login, "bob");
    assert_eq!(crates[1].owner_name, "Bob");
    assert_eq!(crates[1].owner_gh_avatar, "av");
}

#[test]
fn teams_become_users() {
    let team = Team {
        avatar: "av".to_string(),
        github_id: "7".to_string(),
        login: "github:org:team".to_string(),
        id: "3".to_string(),
        name: "Team".to_string(),
        org_id: "9".to_string(),
    };
    let user = team_to_user(team);
    assert_eq!(user.gh_login, "github:org:team");
    assert_eq!(user.gh_id, "7");
    assert_eq!(user.count, 0);
}

#[test]
fn newest_crates_first() {
    let mut a = named("a");
    a.updated_at = "2020".to_string();
    let mut b = named("b");
    b.updated_at = "2022".to_string();
    let mut c = named("c");
    c.updated_at = "2020".to_string();
    let sorted = newest_first(vec![a, b, c]);
    let names: Vec<&str> = sorted.iter().map(|c| c.name.as_str()).collect();
    assert_eq!(names, vec!["b", "a", "c"]);
}

#[test]
fn biggest_crates() {
    let mut a = named("a");
    a.crate_details.size = 10;
    let mut b = named("b");
    b.crate_details.size = 1234567;
    let mut c = named("c");
    c.crate_details.size = 10;
    let sorted = largest_first(vec![a, b, c]);
    let names: Vec<&str> = sorted.iter().map(|c| c.name.as_str()).collect();
    assert_eq!(names, vec!["b", "c", "a"]);
    let fields = size_fields(&sorted);
    assert_eq!(fields, vec!["1,234,567".to_string(), "10".to_string(), "10".to_string()]);
    let mut d = named("d");
    d.crate_details.size = 1000;
    let mut e = named("e");
    e.crate_details.size = 999;
    assert_eq!(size_fields(&vec![d, e]), vec!["1,000".to_string(), "999".to_string()]);
}

#[test]
fn commas_keep_digits() {
    let mut crates = vec![];
    for size in [0u64, 7, 999, 1000, 1001, 123456, 1234567, 1000000000, u64::MAX] {
        let mut c = named("x");
        c.crate_details.size = size;
        crates.push(c);
    }
    let fields = size_fields(&crates);
    for (krate, field) in crates.iter().zip(&fields) {
        assert_eq!(field.replace(',', ""), krate.crate_details.size.to_string());
    }
    assert_eq!(fields[5], "123,456");
    assert_eq!(fields[7], "1,000,000,000");
    assert_eq!(fields[8], "18,446,744,073,709,551,615");
}
