[package]
name = "peam"
version = "0.1.0"
edition = "2021"
publish = false

[dependencies]
sha2 = "0.10"
snap = "1"
rapidhash = "*"
rand = "0.9"
libp2p = { version = "0.56", default-features = false, features = ["gossipsub", "identify", "mdns", "quic", "request-response", "tokio", "secp256k1", "macros"] }
libp2p-swarm-derive = "*"
tokio = { version = "1", features = ["full"] }
futures = "0.3"
async-trait = "0.1"
enr = "0.13"
serde = { version = "1", features = ["derive"] }
serde_json = "1"
serde_yaml = "0.9"
ureq = "2"
tracing = "0.1"
tracing-subscriber = { version = "0.3", features = ["env-filter"] }
tikv-jemallocator = "0.6"
