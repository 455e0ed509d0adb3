[package]
name = "chainsync_loadtest"
version = "0.1.0"
edition = "2021"
publish = false

[dependencies]
near-primitives = "0.15"
near-crypto = "0.15"
near-chain-configs = "0.15"
actix = "0.13"
anyhow = "1"
clap = { version = "3.2", features = ["derive"] }
dirs = "3"
futures = "0.3"
governor = "0.4"
log = "0.4"
once_cell = "1"
openssl-probe = "0.1"
rand = "0.7"
tokio = { version = "1", features = ["full"] }
tracing = "0.1"
tracing-subscriber = { version = "0.3", features = ["env-filter"] }
