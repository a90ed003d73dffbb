[package]
name = "wallet_export"
version = "0.1.0"
edition = "2021"
publish = false

[dependencies]
dialoguer = "0.10"
ferris-says = "0.2"
reqwest = "0.11"
reqwest-middleware = "0.1"
reqwest-retry = "0.1"
serde = { version = "1", features = ["derive"] }
serde_json = "1"
tokio = { version = "1", features = ["macros", "rt-multi-thread"] }
web3 = "0.18"
