[package]
name = "pfft_miner"
version = "0.2.0"
edition = "2021"
publish = false

[dependencies]
alloy = { version = "=0.8.3", features = ["contract", "providers", "signer-local", "network", "rpc-types-eth", "sol-types", "reqwest"] }
anyhow = "=1.0.104"
chrono = { version = "=0.4.45", default-features = false, features = ["alloc", "now"] }
dotenvy = "0.15"
hex = "=0.4.3"
num_cpus = "=1.17.0"
rand = "=0.8.8"
serde = { version = "=1.0.229", features = ["derive"] }
serde_json = "=1.0.154"
tiny-keccak = { version = "=2.0.2", features = ["keccak"] }
tokio = { version = "=1.54.1", features = ["macros", "rt-multi-thread", "time", "signal"] }
