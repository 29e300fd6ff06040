[package]
name = "staking_rewards_exporter"
version = "0.1.0"
edition = "2021"
rust-version = "1.84"
publish = false

[dependencies]
sled = "=0.34.7"
solana-pubkey = "=2.4.0"
solana-transaction-status-client-types = "=2.3.13"
solana-stake-interface = { version = "=1.2.1", features = ["serde"] }
bincode = "=1.3.3"
prometheus_exporter = "=0.8.5"
anyhow = "=1.0.104"
