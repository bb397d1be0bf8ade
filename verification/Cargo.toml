[package]
name = "nibb_core"
version = "0.1.0"
edition = "2021"
publish = false

[dependencies]
slug = "*"
chrono = "*"
dirs = "*"
fuzzy-matcher = "*"
serde = { version = "*", features = ["derive"] }
serde_json = "*"
toml = "*"
rusqlite = { version = "*", features = ["bundled"] }
