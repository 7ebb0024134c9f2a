[package]
name = "creation_dev_buy"
version = "0.1.0"
edition = "2021"
publish = false

[dependencies]
ethers = { version = "2", default-features = false }
tokio = { version = "1", features = ["rt-multi-thread", "macros", "sync", "io-std", "io-util", "time"] }
serde = { version = "1", features = ["derive"] }
anyhow = "1"
dotenv = "0.15"

[dev-dependencies]
ethabi = "18"
