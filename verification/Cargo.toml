[package]
name = "netsec"
version = "0.1.0"
edition = "2021"
publish = false

[dependencies]
sha2 = "0.10"
ed25519-dalek = { version = "2", features = ["rand_core"] }
regex = "1"
dashmap = "5"
ipnet = "2"
etherparse = "0.13"
hickory-proto = "0.24"
tokio = { version = "1", features = ["full"] }
serde = { version = "1", features = ["derive"] }
serde_json = "1"
rand = "0.8"
anyhow = "1"
chrono = "0.4"
uuid = { version = "1", features = ["v4"] }
tracing = "0.1"
tracing-subscriber = "0.3"
log = "0.4"
env_logger = "0.11"
libc = "0.2"
futures = "0.3"
bytes = "1"
async-trait = "0.1"
walkdir = "2"
axum = "0.7"
rusqlite = { version = "0.31", features = ["bundled"] }
hickory-server = "0.24"
hickory-resolver = "0.24"
clickhouse = "0.12"
aya = "0.12"
notify = "6"
