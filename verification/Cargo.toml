[package]
name = "fast_icc"
version = "0.1.0"
edition = "2021"
publish = false

[dependencies]
sha2 = "=0.10.9"
hex = "=0.4.3"
serde = { version = "=1.0.229", features = ["derive"] }
serde_json = "=1.0.154"
crossbeam-channel = "=0.5.17"
async-std = { version = "=1.13.2", features = ["attributes"] }
futures = "=0.3.34"
libp2p = { version = "=0.53.2", default-features = false, features = ["tcp", "noise", "yamux", "floodsub", "macros", "ed25519"] }
libp2p-swarm = { version = "=0.44.2", features = ["async-std"] }
libp2p-tcp = { version = "=0.41.0", features = ["async-io"] }
structopt = "=0.3.26"
tide = { version = "0.16", default-features = false, features = ["h1-server"] }
