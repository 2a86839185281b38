[package]
name = "rust-digger"
version = "0.1.0"
edition = "2021"
publish = false

[dependencies]
chrono = "=0.4.45"
clap = { version = "=4.6.7", features = ["derive"] }
csv = "=1.4.0"
flate2 = "=1.1.10"
git-digger = "=0.2.4"
kstring = "=2.0.2"
liquid = "=0.26.11"
liquid-filter-commafy = "=0.1.1"
log = "=0.4.35"
regex = "=1.13.1"
reqwest = { version = "=0.13.5", features = ["blocking"] }
serde = { version = "=1.0.229", features = ["derive"] }
serde_json = "=1.0.154"
serde_yaml = "=0.9.34"
simple_logger = "=5.2.0"
tar = "=0.4.46"
tempdir = "=0.3.7"
thousands = "=0.2.0"
toml = "=1.1.8"
