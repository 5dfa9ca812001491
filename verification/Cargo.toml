[package]
name = "enginefs"
version = "0.1.0"
edition = "2021"
publish = false

[dependencies]
anyhow = "1"
axum = "0.7"
bytes = "1"
fs2 = "0.4"
moka = { version = "0.12", features = ["sync"] }
parking_lot = "0.12"
serde = { version = "1", features = ["derive"] }
serde_json = "1"
tokio = { version = "1", features = ["rt-multi-thread", "sync", "time", "io-util", "macros"] }
tracing = "0.1"
