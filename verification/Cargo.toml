[package]
name = "ipdm"
version = "0.1.0"
edition = "2021"
publish = false

[dependencies]
libp2p = { version = "0.55", features = ["ed25519", "macros", "mdns", "noise", "request-response", "tcp", "tokio", "yamux"] }
tokio = { version = "1", features = ["macros", "rt-multi-thread", "sync", "time"] }
futures = "0.3"
async-trait = "0.1"
serde = { version = "1", features = ["derive"] }
bincode = "1"
thiserror = "1"
log = "0.4"
