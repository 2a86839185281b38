use rust_digger::crates::{Crate, CrateVersion};
use rust_digger::downloads::{
    crate_folder_name, download_url, folders_to_remove, latest_number, latest_versions,
    pick_extracted_folder, DownloadTally,
};
use rust_digger::text_map::TextSet;

fn version(crate_id: &str, num: &str, created_at: &str) -> CrateVersion {
    CrateVersion {
        checksum: String::new(),
        crate_id: crate_id.to_string(),
        crate_size: String::new(),
        created_at: created_at.to_string(),
        features: String::new(),
        id: String::new(),
        license: String::new(),
        links: String::new(),
        num: num.to_string(),
        published_by: String::new(),
        rust_version: String::new(),
        updated_at: String::new(),
        yanked: String::new(),
    }
}

#[test]
fn latest_version_of_each_crate() {
    let versions = vec![
        version("1", "0.1.0", "2020-01-01"),
        version("2", "1.0.0", "2021-01-01"),
        version("1", "0.2.0", "2022-01-01"),
        version("1", "0.1.1", "2021-06-01"),
        version("2", "1.0.1", "2021-01-01"),
    ];
    let latest = latest_versions(&versions);
    assert_eq!(latest.get("1"), Some(&2));
    // a version created at the same time does not replace the one found first
    assert_eq!(latest.get("2"), Some(&1));
    assert_eq!(latest.get("3"), None);
    let mut serde = Crate::new();
    serde.id = "1".to_string();
    assert_eq!(latest_number(&serde, &versions, &latest), Some("0.2.0".to_string()));
    let mut unknown = Crate::new();
    unknown.id = "3".to_string();
    assert_eq!(latest_number(&unknown, &versions, &latest), None);
}

#[test]
fn folders_and_addresses() {
    assert_eq!(crate_folder_name("serde", "1.0.0"), "serde-1.0.0");
    assert_eq!(
        download_url("serde", "1.0.0"),
        "https://crates.io/api/v1/crates/serde/1.0.0/download"
    );
}

#[test]
fn stale_folders_are_removed() {
    let mut newest = TextSet::new();
    newest.insert("serde-1.0.1");
    newest.insert("rand-0.8.5");
    let folders = vec![
        "serde-1.0.0".to_string(),
        "serde-1.0.1".to_string(),
        "rand-0.8.4".to_string(),
        "rand-0.8.5".to_string(),
    ];
    assert_eq!(
        folders_to_remove(&folders, &newest),
        vec!["serde-1.0.0".to_string(), "rand-0.8.4".to_string()]
    );
}

#[test]
fn tally_of_downloads() {
    let mut tally = DownloadTally::new();
    tally.record(100);
    tally.record(23);
    assert_eq!(tally.count, 2);
    assert_eq!(tally.total, 123);
}

#[test]
fn extracted_dump_folder() {
    let entries = vec![
        "db-dump.tar.gz".to_string(),
        "2023-06-16-020046/data".to_string(),
        "2023-06-17-020046".to_string(),
    ];
    assert_eq!(
        pick_extracted_folder(&entries, "2023"),
        Some("2023-06-16-020046".to_string())
    );
    assert_eq!(pick_extracted_folder(&entries, "2024"), None);
}
