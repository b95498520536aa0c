[package]
name = "stealth_sidecar"
version = "0.1.0"
edition = "2021"
publish = false

[dependencies]
anyhow = "1"
async-trait = "0.1"
base64 = "=0.22.1"
chrono = { version = "=0.4.45", default-features = false, features = ["clock", "std"] }
clap = { version = "4", default-features = false, features = ["derive", "help", "std", "usage"] }
futures = "0.3"
hex = "=0.4.3"
libp2p = { version = "0.53", features = ["gossipsub", "identify", "macros", "noise", "tcp", "tokio", "yamux"] }
multiaddr = "0.18"
prometheus = { version = "0.13", default-features = false }
rand = "=0.8.8"
reqwest = { version = "0.11", default-features = false, features = ["json"] }
serde = { version = "1", features = ["derive"] }
serde_json = "1"
sha2 = "0.10"
thiserror = "1"
tokio = { version = "1", features = ["fs", "macros", "rt-multi-thread", "signal", "sync", "time"] }
toml = "0.8"
tracing = "0.1"
tracing-subscriber = { version = "0.3", features = ["env-filter"] }
warp = { version = "0.3", default-features = false }
