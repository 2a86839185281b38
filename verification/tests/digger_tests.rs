use std::path::PathBuf;

use rust_digger::build_path;
use rust_digger::common::get_owner_and_repo;
use rust_digger::repo_details_root;
use rust_digger::repository::get_vcs_details_path;
use rust_digger::percentage;

#[test]
fn common_test_percentage() {
    assert_eq!(rust_digger::common::percentage(20, 100), "20");
    assert_eq!(rust_digger::common::percentage(5, 20), "25");
    assert_eq!(rust_digger::common::percentage(1234, 10000), "12.34");
    assert_eq!(rust_digger::common::percentage(1234567, 10000000), "12.34");
}

#[test]
fn lib_test_percentage() {
    assert_eq!(percentage(20, 100), "20");
    assert_eq!(percentage(5, 20), "25");
    assert_eq!(percentage(1234, 10000), "12.34");
    assert_eq!(percentage(1_234_567, 10_000_000), "12.34");
}

#[test]
fn check_build_path() {
    // empty
    let path = build_path(String::from("root"), &[], None);
    assert_eq!(PathBuf::from(path), PathBuf::from("root"));

    let path = build_path(String::from("root"), &[], Some("rs"));
    assert_eq!(PathBuf::from(path), PathBuf::from("root.rs"));

    let path = build_path(String::from("root"), &["one", "two"], None);
    let mut expected = PathBuf::from("root").join("one").join("two");
    assert_eq!(PathBuf::from(path), expected);

    let path = build_path(String::from("root"), &["one", "two"], Some("html"));
    expected.set_extension("html");
    assert_eq!(PathBuf::from(path), expected);
}

#[test]
fn test_get_owner_and_repo() {
    assert_eq!(
        get_owner_and_repo("https://github.com/szabgab/rust-digger"),
        (
            "github".to_string(),
            "szabgab".to_string(),
            "rust-digger".to_string()
        )
    );
    assert_eq!(
        get_owner_and_repo("https://github.com/szabgab/rust-digger/"),
        (
            "github".to_string(),
            "szabgab".to_string(),
            "rust-digger".to_string()
        )
    );
    assert_eq!(
        get_owner_and_repo(
            "https://github.com/crypto-crawler/crypto-crawler-rs/tree/main/crypto-market-type"
        ),
        (
            "github".to_string(),
            "crypto-crawler".to_string(),
            "crypto-crawler-rs".to_string()
        )
    );
    assert_eq!(
        get_owner_and_repo("https://gitlab.com/szabgab/rust-digger"),
        (
            "gitlab".to_string(),
            "szabgab".to_string(),
            "rust-digger".to_string()
        )
    );
    assert_eq!(
        get_owner_and_repo("https://gitlab.com/Szabgab/Rust-digger/"),
        (
            "gitlab".to_string(),
            "szabgab".to_string(),
            "rust-digger".to_string()
        )
    );
}

#[test]
fn test_get_details_path() {
    let expected = PathBuf::from(repo_details_root())
        .join("github.com")
        .join("foo")
        .join("bar.json");
    assert_eq!(
        PathBuf::from(get_vcs_details_path("https://github.com/foo/bar").expect("X")),
        expected
    );

    assert_eq!(
        PathBuf::from(get_vcs_details_path("https://github.com/foo/bar/baz").expect("X")),
        expected
    );
    assert_eq!(get_vcs_details_path("https://zorg.com/foo/bar"), None);
}

#[test]
fn html_test_get_repo_types() {
    let _repos = rust_digger::pages::get_repo_types();
}

#[test]
fn render_test_get_repo_types() {
    let _repos = rust_digger::pages::get_repo_types();
}
