[package]
name = "microcad_lang"
version = "0.1.0"
edition = "2021"
publish = false

[dependencies]
serde = { version = "1", features = ["derive"] }
toml = "0.8"
semver = { version = "1", features = ["serde"] }
