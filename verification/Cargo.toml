[package]
name = "ai_hist"
version = "0.1.0"
edition = "2021"
publish = false

[dependencies]
anyhow = "1"
notify = "6"
rusqlite = { version = "0.32", features = ["bundled", "backup"] }
serde = { version = "1", features = ["derive"] }
serde_json = "1"
sha2 = "0.10"

[dev-dependencies]
tempfile = "3"
