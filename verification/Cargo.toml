[package]
name = "config_parser"
version = "0.1.0"
edition = "2021"
publish = false

[dependencies]
serde_json = "1"
toml_edit = "0.20"
clap = { version = "4", features = ["derive"] }
anyhow = "1"
thiserror = "1"
