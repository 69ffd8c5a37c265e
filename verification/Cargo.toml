[package]
name = "tgcryptfs"
version = "0.1.0"
edition = "2021"
publish = false

[dependencies]
ring = "0.17"
rand = "0.8"
reed-solomon-erasure = "6"
hex = "0.4"
blake3 = { version = "1", features = ["pure"] }
argon2 = "0.5"
lz4_flex = "0.11"
zeroize = "1"
uuid = { version = "1", features = ["v4"] }
sled = "0.34"
bincode = "1"
serde = { version = "1", features = ["derive"] }
thiserror = "1"
tokio = { version = "1", features = ["rt-multi-thread", "time", "sync"] }
futures = "0.3"
parking_lot = "0.12"
tracing = "0.1"
libc = "0.2"
clap = { version = "4", features = ["derive"] }
