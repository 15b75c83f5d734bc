[package]
name = "mdbase_ls"
version = "0.1.0"
edition = "2021"
publish = false

[dependencies]
ropey = "1"
chrono = "0.4"
ulid = "1"
uuid = { version = "1", features = ["v4"] }
serde_json = "1"
serde_yaml = "0.9"
tokio = { version = "1", features = ["full"] }
tower-lsp = "0.20"
tracing = "0.1"
tracing-subscriber = { version = "0.3", features = ["env-filter"] }
dashmap = "6"
