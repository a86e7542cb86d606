[package]
name = "stark_node"
version = "0.1.0"
edition = "2021"
publish = false

[dependencies]
pathfinder-crypto = "*"
sha3 = "0.10"
semver = "1"
bitvec = "1"
anyhow = "1"
thiserror = "1"
tracing = "0.1"
ipnet = "2"
futures = "0.3"
serde = { version = "1", features = ["derive"] }
serde_json = "1"
serde_with = "3"
tokio = { version = "1", features = ["rt", "rt-multi-thread", "sync", "macros"] }
rusqlite = { version = "*", features = ["bundled"] }
libp2p = { version = "0.53", default-features = false, features = ["gossipsub", "kad"] }

[dev-dependencies]
starknet-crypto = "*"
