[package]
name = "wunderdrive"
version = "0.1.0"
edition = "2021"
publish = false

[dependencies]
blake3 = "1"
chrono = "0.4"
dirs = "*"
serde = { version = "1", features = ["derive"] }
serde_json = "1"
quick-xml = "*"
tokio = { version = "1", features = ["full"] }
object_store = { version = "*", features = ["aws"] }
redb = "*"
tantivy = "*"
walkdir = "2"
notify = "*"
keyring = "3"
toml = "*"
lopdf = "*"
zip = { version = "*", default-features = false, features = ["deflate"] }
calamine = "*"
tracing = "0.1"
tracing-subscriber = { version = "0.3", features = ["env-filter"] }
anyhow = "1"
thiserror = "*"
interprocess = { version = "2", features = ["tokio"] }
bytes = "1"
futures = "0.3"
