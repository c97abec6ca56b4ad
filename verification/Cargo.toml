[package]
name = "bitshit"
version = "0.2.0"
edition = "2021"
publish = false

[dependencies]
serde = { version = "=1.0.229", features = ["derive"] }
serde_json = "=1.0.154"
anyhow = "=1.0.104"
dirs = "=5.0.1"
reqwest = { version = "=0.12.28", default-features = false, features = ["json", "rustls-tls"] }
tokio = { version = "=1.54.1", features = ["rt-multi-thread", "macros", "fs", "sync", "io-util"] }
futures-util = "=0.3.34"
zip = { version = "=2.6.1", default-features = false, features = ["deflate"] }
colored = "=2.2.0"
indicatif = "=0.17.11"
libloading = "0.8"
inquire = "0.7"
