use rust_digger::crates::{limit_reached, Crate, VCSDetails};
use rust_digger::scan::{
    crate_too_old, get_repository_url, too_old_at, vcs_target, CloneRun, CloneStep,
};
use rust_digger::text_map::TextSet;

fn krate(repository: &str, homepage: &str, updated_at: &str) -> Crate {
    let mut c = Crate::new();
    c.repository = repository.to_string();
    c.homepage = homepage.to_string();
    c.updated_at = updated_at.to_string();
    c
}

#[test]
fn update_times() {
    assert!(too_old_at(None, (0, 0)));
    assert!(too_old_at(Some((10, 5)), (10, 6)));
    assert!(!too_old_at(Some((10, 6)), (10, 6)));
    assert!(!too_old_at(Some((11, 0)), (10, 999)));
    // 2023-09-18 01:44:10 is 1695001450 seconds; `%f` reads the digits after the
    // dot as a number of nanoseconds
    let recent = krate("", "", "2023-09-18 01:44:10.299066");
    assert!(!crate_too_old(&recent, (1695001450, 299066)));
    assert!(crate_too_old(&recent, (1695001450, 299067)));
    assert!(!crate_too_old(&recent, (1695000000, 0)));
    // without fractions of a second the time does not fit the format
    let unreadable = krate("", "", "2023-09-18 01:44:10");
    assert!(crate_too_old(&unreadable, (0, 0)));
}

#[test]
fn repository_urls() {
    assert_eq!(get_repository_url(&krate("https://GitHub.com/Foo/Bar", "https://x.org", "")), "https://github.com/foo/bar");
    assert_eq!(get_repository_url(&krate("", "https://Example.org/", "")), "https://example.org/");
    assert_eq!(get_repository_url(&krate("", "", "")), "");
}

#[test]
fn clone_run_visits_each_repository_once() {
    let mut run = CloneRun::new(2, 0, (0, 0), false);
    assert!(!run.done());
    let a = krate("https://github.com/foo/bar", "", "");
    match run.select(&a) {
        CloneStep::Update { url, path } => {
            assert_eq!(url, "https://github.com/foo/bar");
            assert_eq!(path, "data/repos/github.com/foo/bar");
        }
        CloneStep::Skip => panic!("expected an update"),
    }
    // the same repository again, in other case: already visited
    let again = krate("https://github.com/Foo/Bar", "", "");
    assert!(matches!(run.select(&again), CloneStep::Skip));
    // no URL at all
    assert!(matches!(run.select(&krate("", "", "")), CloneStep::Skip));
    // a host that git-digger does not know
    assert!(matches!(run.select(&krate("https://example.org/x/y", "", "")), CloneStep::Skip));
    assert!(run.allows(""));
    assert!(!run.allows("could not clone"));
    assert!(CloneRun::reachable(200));
    assert!(!CloneRun::reachable(404));
    run.updated();
    run.updated();
    assert_eq!(run.count, 2);
    assert!(run.done());
}

#[test]
fn clone_run_skips_old_crates() {
    let mut run = CloneRun::new(0, 10, (1695001450, 0), true);
    let old = krate("https://github.com/foo/old", "", "2020-01-01 00:00:00.0");
    assert!(matches!(run.select(&old), CloneStep::Skip));
    let new = krate("https://github.com/foo/new", "", "2024-01-01 00:00:00.0");
    assert!(matches!(run.select(&new), CloneStep::Update { .. }));
    assert!(run.allows("could not clone"));
}

#[test]
fn limits() {
    assert!(!limit_reached(5, 0));
    assert!(!limit_reached(4, 5));
    assert!(limit_reached(5, 5));
}

#[test]
fn vcs_targets() {
    let mut seen = TextSet::new();
    let a = krate("https://github.com/Foo/Bar", "", "");
    assert_eq!(
        vcs_target(&a, &mut seen),
        Some(("github".to_string(), "foo".to_string(), "bar".to_string()))
    );
    assert!(seen.contains("https://github.com/foo/bar"));
    let again = krate("https://github.com/foo/bar", "", "");
    assert_eq!(vcs_target(&again, &mut seen), None);
    let other = krate("https://example.org/foo/bar", "", "");
    assert_eq!(vcs_target(&other, &mut seen), None);
    assert!(!seen.contains("https://example.org/foo/bar"));
    assert_eq!(vcs_target(&krate("", "", ""), &mut seen), None);
}

#[test]
fn failed_clone_is_recorded() {
    let mut details = VCSDetails::new();
    details.has_github_action = true;
    details.commit_count = 7;
    let failed = CloneRun::clone_failed(details, "fatal: repository not found");
    assert_eq!(failed.git_clone_error, "fatal: repository not found");
    assert!(failed.has_github_action);
    assert_eq!(failed.commit_count, 7);
    let run = CloneRun::new(0, 0, (0, 0), false);
    assert!(!run.allows(&failed.git_clone_error));
    let forced = CloneRun::new(0, 0, (0, 0), true);
    assert!(forced.allows(&failed.git_clone_error));
    let silent = CloneRun::clone_failed(VCSDetails::new(), "");
    assert_eq!(silent.git_clone_error, "could not clone");
    assert!(!run.allows(&silent.git_clone_error));
}
