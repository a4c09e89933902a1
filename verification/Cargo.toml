[package]
name = "nym_transport"
version = "0.1.0"
edition = "2021"
publish = false

[dependencies]
futures = "0.3"
libp2p = { version = "*", default-features = false }
libp2p-identity = { version = "*", features = ["ed25519", "rand", "peerid"] }
nym-sphinx-addressing = "*"
rand = "0.8"
tokio = { version = "1", features = ["sync", "time", "rt", "macros"] }
tokio-stream = "0.1"
