[package]
name = "web3_proxy"
version = "0.1.0"
edition = "2021"
publish = false

[dependencies]
governor = "=0.10.4"
tokio = { version = "*", features = ["full"] }
serde = { version = "*", features = ["derive"] }
serde_json = { version = "*", features = ["raw_value"] }
reqwest = { version = "*", default-features = false, features = ["json"] }
warp = { version = "=0.4.3", features = ["server"] }
futures = "*"
tracing = "*"
tracing-subscriber = "*"
url = "*"
anyhow = "*"
