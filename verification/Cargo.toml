[package]
name = "cc-switch-agents"
version = "0.1.0"
edition = "2021"
publish = false

[dependencies]
chrono = "0.4"
http = "1"
serde = { version = "1", features = ["derive"] }
serde_json = "1"
serde_yaml = "0.9"
json5 = "0.4"
json-five = "*"
toml = "0.8"
toml_edit = "0.22"
log = "0.4"
rusqlite = { version = "*", features = ["bundled"] }
