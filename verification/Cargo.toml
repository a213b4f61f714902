[package]
name = "multiraft"
version = "0.1.0"
edition = "2021"
publish = false

[dependencies]
serde = { version = "=1.0.229", features = ["derive"] }
serde_json = "=1.0.154"
sha2 = "=0.10.9"
tokio = { version = "=1.54.1", features = ["rt-multi-thread", "macros", "sync", "time", "net"] }
reqwest = { version = "=0.12.28", default-features = false }
anyhow = "=1.0.104"
thiserror = "=1.0.69"
clap = { version = "=4.6.7", features = ["derive"] }
axum = "=0.7.9"
tracing = "=0.1.44"
tracing-subscriber = { version = "=0.3.23", features = ["env-filter"] }
futures = "=0.3.34"
bincode = "=1.3.3"
openraft = { version = "=0.9.25", features = ["serde", "storage-v2", "generic-snapshot-data"] }
