use rust_digger::crates::Crate;
use rust_digger::pages::{
    case_path_of, case_title_of, collect_repos, crate_has_interesting_homepage, generate_stats,
    get_repo_types, on_github_but_no_ci, on_gitlab_but_no_ci, page_address_of, select_crates,
    stat_cases, unique_interesting_homepages, with_rustfmt, CrateCase, CrateFilter,
};
use rust_digger::percentage;
use rust_digger::text_map::TextMap;

fn krate(id: &str, name: &str, repository: &str) -> Crate {
    let mut c = Crate::new();
    c.id = id.to_string();
    c.name = name.to_string();
    c.repository = repository.to_string();
    c
}

#[test]
fn percentage_edges() {
    assert_eq!(percentage(0, 0), "NaN");
    assert_eq!(percentage(1, 0), "inf");
    assert_eq!(percentage(3, 3), "100");
    assert_eq!(percentage(0, 7), "0");
    assert_eq!(percentage(1, 3), "33.33");
    assert_eq!(percentage(1, 8), "12.5");
    assert_eq!(rust_digger::common::percentage(1, 3), "33.33");
    assert_eq!(rust_digger::common::percentage(2, 2), "100");
}

#[test]
fn interesting_homepages() {
    let mut a = krate("1", "a", "");
    a.cargo.package.homepage = Some("https://example.org/".to_string());
    let mut b = krate("2", "b", "");
    b.cargo.package.homepage = Some("https://github.com/foo/b".to_string());
    let mut c = krate("3", "c", "");
    c.cargo.package.homepage = Some("https://docs.rs/c".to_string());
    let d = krate("4", "d", "");
    let mut e = krate("5", "e", "");
    e.cargo.package.homepage = Some("https://aaa.example/".to_string());
    let mut f = krate("6", "f", "");
    f.cargo.package.homepage = Some("https://example.org/".to_string());
    assert!(crate_has_interesting_homepage(&a));
    assert!(!crate_has_interesting_homepage(&b));
    assert!(!crate_has_interesting_homepage(&c));
    assert!(!crate_has_interesting_homepage(&d));
    let homepages = unique_interesting_homepages(&vec![a, b, c, d, e, f]);
    assert_eq!(
        homepages,
        vec!["https://aaa.example/".to_string(), "https://example.org/".to_string()]
    );
}

#[test]
fn ci_cases() {
    let plain = krate("1", "a", "https://github.com/foo/a");
    assert!(on_github_but_no_ci(&plain));
    assert!(!on_gitlab_but_no_ci(&plain));
    let mut with_actions = krate("2", "b", "https://github.com/foo/b");
    with_actions.vcs_details.has_github_action = true;
    assert!(!on_github_but_no_ci(&with_actions));
    let lab = krate("3", "c", "https://gitlab.com/foo/c");
    assert!(on_gitlab_but_no_ci(&lab));
    let mut lab_ci = krate("4", "d", "https://gitlab.com/foo/d");
    lab_ci.vcs_details.has_gitlab_pipeline = true;
    assert!(!on_gitlab_but_no_ci(&lab_ci));
    let none = krate("5", "e", "");
    assert!(!on_github_but_no_ci(&none));
    let short = krate("6", "f", "https://github.com/foo");
    assert!(!on_github_but_no_ci(&short));
}

#[test]
fn select_by_filters() {
    let crates = vec![
        krate("1", "a", "https://github.com/foo/a"),
        krate("2", "b", ""),
        krate("3", "c", "https://example.com/c"),
        krate("4", "d", "https://gitlab.com/foo/d"),
    ];
    assert_eq!(select_crates(&crates, &CrateFilter::Everything), vec![0, 1, 2, 3]);
    assert_eq!(select_crates(&crates, &CrateFilter::WithoutRepository), vec![1]);
    assert_eq!(
        select_crates(&crates, &CrateFilter::RepositoryUnder("https://github.com/".to_string())),
        vec![0]
    );
    assert_eq!(
        select_crates(
            &crates,
            &CrateFilter::UnrecognizedRepository(vec![
                "https://github.com/".to_string(),
                "https://gitlab.com/".to_string()
            ])
        ),
        vec![2]
    );
    assert_eq!(
        select_crates(&crates, &CrateFilter::NamedIn(vec!["d".to_string(), "a".to_string()])),
        vec![0, 3]
    );
    assert_eq!(select_crates(&crates, &CrateFilter::Edition("na".to_string())), vec![0, 1, 2, 3]);
    assert_eq!(select_crates(&crates, &CrateFilter::Case(CrateCase::GithubButNoCi)), vec![0]);
}

#[test]
fn repo_types_list() {
    let repos = get_repo_types();
    assert_eq!(repos.len(), 15);
    assert_eq!(repos[0].display, "GitHub");
    assert_eq!(repos[0].name, "github");
    assert_eq!(repos[0].url, "https://github.com/");
    assert_eq!(repos[0].percentage, "0");
    assert_eq!(repos[14].name, "github-with-www");
    assert_eq!(repos[13].url, "http://");
    assert!(repos.iter().all(|r| r.count == 0 && !r.bold && r.platform.is_none()));
}

#[test]
fn repos_table() {
    let crates = vec![
        krate("1", "a", "https://github.com/foo/a"),
        krate("2", "b", ""),
        krate("3", "c", "https://example.com/c"),
        krate("4", "d", "https://gitlab.com/foo/d"),
        krate("5", "e", "https://github.com/foo/e"),
        krate("6", "f", "https://example.com/f"),
        krate("7", "g", "https://example.com/g"),
    ];
    let types = get_repo_types();
    let (repos, no_repo) = collect_repos(&crates, types);
    assert_eq!(no_repo, 1);
    assert_eq!(repos.len(), 17);
    assert_eq!(repos[0].name, "other-repos");
    assert_eq!(repos[0].count, 3);
    assert_eq!(repos[0].percentage, "42.85");
    assert!(repos[0].bold);
    assert_eq!(repos[1].name, "github");
    assert_eq!(repos[1].count, 2);
    assert_eq!(repos[1].percentage, "28.57");
    // ties by count go by name, descending
    assert_eq!(repos[2].name, "no-repo");
    assert_eq!(repos[3].name, "gitlab");
    assert_eq!(repos[3].count, 1);
    for pair in repos.windows(2) {
        assert!(pair[0].count >= pair[1].count);
    }
    assert_eq!(repos[16].name, "cern");
}

#[test]
fn stats_lines() {
    let mut a = krate("1", "a", "https://github.com/foo/a");
    a.vcs_details.has_rustfmt_toml = true;
    let b = krate("2", "b", "");
    let mut errors = TextMap::new();
    errors.insert("b".to_string(), "bad".to_string());
    let crates = vec![a, b];
    let stats = generate_stats(&crates, &errors, 1);
    assert_eq!(stats.len(), 3 + 17);
    assert_eq!(stats[0].path, "all");
    assert_eq!(stats[0].count, 2);
    assert_eq!(stats[0].percentage, "100%");
    assert_eq!(stats[1].path, "vcs/no-repo");
    assert_eq!(stats[1].percentage, "50");
    assert_eq!(stats[2].path, "has-cargo-toml-errors");
    assert_eq!(stats[2].count, 1);
    assert_eq!(stats[3].path, "github-but-no-ci");
    assert_eq!(stats[3].count, 1);
    assert_eq!(with_rustfmt(&stats), 1);
    let cases = stat_cases();
    assert_eq!(cases.len(), 17);
    assert_eq!(case_path_of(&cases[5]), "has-rustfmt-toml");
    assert_eq!(case_title_of(&cases[5]), "Has rustfmt.toml file");
}

#[test]
fn sitemap_addresses() {
    assert_eq!(page_address_of("_site/crates/foo.html"), "/crates/foo");
    assert_eq!(page_address_of("_site/index.html"), "/");
    assert_eq!(page_address_of("_site/vcs/index.html"), "/vcs/");
    assert_eq!(page_address_of("_site/about.html"), "/about");
}

#[test]
fn repo_groups_add_up() {
    let crates = vec![
        krate("1", "a", "https://github.com/foo/a"),
        krate("2", "b", ""),
        krate("3", "c", "https://example.com/c"),
        krate("4", "d", "http://gitlab.com/foo/d"),
    ];
    let urls: Vec<String> = get_repo_types().iter().map(|r| r.url.clone()).collect();
    let without = select_crates(&crates, &CrateFilter::WithoutRepository).len();
    let unknown = select_crates(&crates, &CrateFilter::UnrecognizedRepository(urls.clone())).len();
    let known = crates
        .iter()
        .filter(|c| !c.repository.is_empty() && urls.iter().any(|u| c.repository.starts_with(u.as_str())))
        .count();
    assert_eq!((without, unknown, known), (1, 1, 2));
    assert_eq!(without + unknown + known, crates.len());
}
