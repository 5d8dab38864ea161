[package]
name = "lockdiff"
version = "0.1.0"
edition = "2021"
publish = false

[dependencies]
toml = "*"
serde_json = "*"
serde_yml = "*"
yarn-lock-parser = "*"
