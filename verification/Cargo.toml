[package]
name = "ctx"
version = "0.1.0"
edition = "2021"
publish = false

[dependencies]
globset = "0.4"
semver = "1"
solang-parser = "0.3"
serde = { version = "1", features = ["derive"] }
serde_json = "1"
toml = "0.8"
reqwest = { version = "0.12", default-features = false, features = ["blocking"] }
