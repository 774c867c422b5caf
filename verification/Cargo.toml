[package]
name = "espanso_core"
version = "0.1.0"
edition = "2021"
publish = false

[dependencies]
serde_norway = "*"
serde_json = "*"
rusqlite = { version = "*", features = ["bundled"] }
crossbeam = "*"
