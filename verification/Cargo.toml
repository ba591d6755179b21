[package]
name = "hyperplane"
version = "0.1.0"
edition = "2021"
publish = false

[dependencies]
roaring = "0.10"
blake3 = { version = "1", features = ["pure"] }
sha2 = "0.10"
base64 = "0.22"
bs58 = "0.5"
serde = { version = "1", features = ["derive"] }
serde_json = "1"
bincode = "1"
thiserror = "1"
redb = "2"
memmap2 = "0.9"
parking_lot = "0.12"
dashmap = "6"
rayon = "1"
tracing = "0.1"
anyhow = "1"
tokio = { version = "1", features = ["full"] }
hyper = { version = "1", features = ["server", "http1"] }
hyper-util = { version = "0.1", features = ["tokio"] }
http-body-util = "0.1"
bytes = "1"
redis = { version = "0.25", features = ["tokio-comp", "connection-manager"] }
solana-sdk = "2"
