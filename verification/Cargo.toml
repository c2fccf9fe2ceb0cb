[package]
name = "nomos_da"
version = "0.1.0"
edition = "2021"
publish = false

[dependencies]
bytes = "=1.12.1"
fixed = "=1.31.0"
rand = "=0.8.8"
rand_chacha = "=0.3.1"
indexmap = "=2.14.2"
cached = "=4.1.0"
hex = "=0.4.3"
libp2p-identity = { version = "=0.2.14", features = ["peerid", "ed25519", "rand"] }
futures = "=0.3.34"
tokio = { version = "=1.54.1", features = ["fs", "io-util", "rt", "macros"] }
serde = { version = "=1.0.229", features = ["derive"] }
bincode = "1"
