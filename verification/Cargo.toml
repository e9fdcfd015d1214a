[package]
name = "codex-quota-ledger"
version = "0.1.0"
edition = "2021"
publish = false

[dependencies]
axum = "0.8"
jiff = { version = "0.2", features = ["tzdb-bundle-always"] }
rusqlite = { version = "0.37", features = ["bundled"] }
serde = { version = "1", features = ["derive"] }
serde_json = "1"
time = { version = "0.3", features = ["parsing"] }
tokio = { version = "1", features = ["net", "rt-multi-thread"] }
