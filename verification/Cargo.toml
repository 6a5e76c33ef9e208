[package]
name = "gateway_config"
version = "0.1.0"
edition = "2021"
publish = false

[dependencies]
url = "=2.5.8"
protox = "=0.10.0"
protox-parse = "=0.10.0"
serde_json = "=1.0.151"
reqwest = { version = "=0.12.28", default-features = false, features = ["blocking", "rustls-tls"] }
hyper = "=1.12.0"
