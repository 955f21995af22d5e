[package]
name = "kimi_config"
version = "0.1.0"
edition = "2021"
publish = false

[dependencies]
anyhow = "1"
dirs = "5"
indexmap = "2"
serde_json = "1"
toml = "0.8"
toml_edit = "0.22"
