use rust_digger::crates::{Crate, User};
use rust_digger::people::{
    crate_has_problem, crates_of_ids, index_crates_by_id, plan_user_pages, users_json_rows,
    users_with_crates, Problem,
};
use rust_digger::text_map::TextMap;

fn krate(id: &str, name: &str, repository: &str, updated_at: &str) -> Crate {
    let mut c = Crate::new();
    c.id = id.to_string();
    c.name = name.to_string();
    c.repository = repository.to_string();
    c.updated_at = updated_at.to_string();
    c
}

fn user(id: &str, login: &str, name: &str, count: usize) -> User {
    User {
        gh_avatar: String::new(),
        gh_id: String::new(),
        gh_login: login.to_string(),
        id: id.to_string(),
        name: name.to_string(),
        count,
    }
}

#[test]
fn crates_by_id_last_wins() {
    let crates = vec![
        krate("7", "a", "", "2020"),
        krate("8", "b", "", "2021"),
        krate("7", "c", "", "2022"),
    ];
    let by_id = index_crates_by_id(&crates);
    assert_eq!(by_id.get("7"), Some(&2));
    assert_eq!(by_id.get("8"), Some(&1));
    assert_eq!(by_id.get("9"), None);
    let ids = vec!["8".to_string(), "9".to_string(), "7".to_string()];
    assert_eq!(crates_of_ids(&ids, &by_id), vec![1, 2]);
}

#[test]
fn problems_of_crates() {
    let mut errors = TextMap::new();
    errors.insert("bad".to_string(), "broken".to_string());
    let http = krate("1", "a", "http://example.com/a", "");
    let www = krate("2", "b", "https://www.github.com/x/b", "");
    let mut both = krate("3", "c", "", "");
    both.vcs_details.has_rustfmt_toml = true;
    both.vcs_details.has_dot_rustfmt_toml = true;
    let bad = krate("4", "bad", "", "");
    assert!(crate_has_problem(Problem::VcsWithHttp, &http, &errors));
    assert!(!crate_has_problem(Problem::VcsWithHttp, &www, &errors));
    assert!(crate_has_problem(Problem::VcsWithWww, &www, &errors));
    assert!(crate_has_problem(Problem::BothRustfmt, &both, &errors));
    assert!(!crate_has_problem(Problem::BothRustfmt, &http, &errors));
    assert!(crate_has_problem(Problem::CargoTomlErrors, &bad, &errors));
    assert!(!crate_has_problem(Problem::CargoTomlErrors, &both, &errors));
}

#[test]
fn pages_of_users() {
    let crates = vec![
        krate("1", "old", "http://example.com/old", "2020-01-01 00:00:00.0"),
        krate("2", "new", "", "2023-01-01 00:00:00.0"),
        krate("3", "mid", "", "2021-01-01 00:00:00.0"),
        krate("4", "other", "", "2022-01-01 00:00:00.0"),
    ];
    let users = vec![
        user("10", "Alice", "Alice A", 0),
        user("11", "bob", "Bob B", 0),
        user("12", "carol", "Carol C", 5),
    ];
    let mut by_owner: TextMap<Vec<String>> = TextMap::new();
    by_owner.insert(
        "10".to_string(),
        vec!["1".to_string(), "2".to_string(), "3".to_string(), "99".to_string()],
    );
    by_owner.insert("11".to_string(), vec!["99".to_string()]);
    let errors: TextMap<String> = TextMap::new();
    let (counted, pages) = plan_user_pages(&crates, users, &by_owner, &errors);
    assert_eq!(counted.len(), 3);
    assert_eq!(counted[0].count, 3);
    assert_eq!(counted[1].count, 0);
    assert_eq!(counted[2].count, 5);
    assert_eq!(pages.len(), 2);
    assert_eq!(pages[0].user, 0);
    assert_eq!(pages[0].file, "_site/users/alice.html");
    assert_eq!(pages[0].crates, vec![1, 2, 0]);
    assert_eq!(pages[0].vcs_with_http, vec![0]);
    assert!(pages[0].vcs_with_www.is_empty());
    assert_eq!(pages[1].user, 1);
    assert!(pages[1].crates.is_empty());

    let listed = users_with_crates(counted);
    let names: Vec<&str> = listed.iter().map(|u| u.name.as_str()).collect();
    assert_eq!(names, vec!["Alice A", "Carol C"]);
}

#[test]
fn users_sorted_by_name_keep_ties() {
    let users = vec![
        user("1", "x", "Zed", 1),
        user("2", "y", "Amy", 2),
        user("3", "z", "Zed", 3),
        user("4", "w", "Amy", 0),
    ];
    let listed = users_with_crates(users);
    let ids: Vec<&str> = listed.iter().map(|u| u.id.as_str()).collect();
    assert_eq!(ids, vec!["2", "1", "3"]);
}

#[test]
fn search_rows_by_login() {
    let users = vec![
        user("1", "Zorro", "Z", 1),
        user("2", "adam", "A", 1),
        user("3", "Mia", "M", 1),
    ];
    let rows = users_json_rows(&users);
    assert_eq!(
        rows,
        vec![
            ("A".to_string(), "adam".to_string()),
            ("M".to_string(), "mia".to_string()),
            ("Z".to_string(), "zorro".to_string()),
        ]
    );
}
