[package]
name = "mdns_query"
version = "0.1.0"
edition = "2021"
publish = false

[dependencies]
hickory-proto = { version = "0.25", default-features = false, features = ["std"] }
libp2p-core = "0.43"
libp2p-identity = { version = "0.2", features = ["peerid", "ed25519", "rand"] }
libp2p-swarm = "0.47"
