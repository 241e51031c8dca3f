[package]
name = "price_relay"
version = "0.1.0"
edition = "2021"
publish = false

[dependencies]
rand = "0.8"
serde = { version = "1", features = ["derive"] }
serde_json = "1"
clap = { version = "4", features = ["derive"] }
log = "0.4"
simplelog = "0.12"
tokio = { version = "1", features = ["macros", "rt-multi-thread", "time"] }
reqwest = { version = "0.11", default-features = false }
web3 = { version = "0.19", default-features = false, features = ["http", "signing"] }
secp256k1 = "0.27"
eth-keystore = "0.5"
