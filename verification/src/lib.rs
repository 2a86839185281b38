//! Data gathering and page statistics for the crates published on crates.io.

pub mod cargo_toml;
pub mod common;
pub mod crates;
pub mod downloads;
pub mod msrv;
pub mod order;
pub mod pages;
pub mod paths;
pub mod people;
pub mod repository;
pub mod rustfmt;
pub mod scan;
pub mod text;
pub mod text_map;
pub mod timer;
pub mod top;

pub use paths::{
    analyzed_crates_root, build_path, collected_data_root, crate_details_path, crates_root, get_data_folder,
    get_db_dump_folder, get_repos_folder, get_site_folder, get_temp_folder, repo_details_root,
};
pub use text::percentage;
