[package]
name = "cargo-upgrade"
version = "0.1.0"
edition = "2021"
publish = false

[dependencies]
cargo_toml = "=0.22.3"
clap = { version = "=4.6.7", features = ["derive"] }
crates_io_api = "=0.12.0"
crossterm = "=0.29.0"
futures = "=0.3.34"
indicatif = "=0.18.6"
ratatui = "=0.30.2"
semver = "=1.0.28"
tokio = { version = "=1.54.1", features = ["rt-multi-thread", "macros"] }
toml_edit = "=0.25.17"
unicode-width = "=0.2.3"
