[package]
name = "rollup_core"
version = "0.1.0"
edition = "2021"
publish = false

[dependencies]
solana-sdk = "=2.1.21"
bincode = "=1.3.3"
sha2 = "=0.10.9"
borsh = "1"
serde = { version = "1", features = ["derive"] }
log = "0.4"
anyhow = "1"
tokio = { version = "1", features = ["rt-multi-thread", "macros", "time"] }
async-channel = "2"
crossbeam = "0.8"
env_logger = "0.11"
actix-web = "4"
reqwest = { version = "0.12", default-features = false, features = ["json"] }
