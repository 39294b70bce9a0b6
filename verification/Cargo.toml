[package]
name = "dns_over_https_proxy"
version = "0.1.0"
edition = "2021"
publish = false

[dependencies]
domain = "0.2"
rand = "0.3"
url = "1"
reqwest = "0.9"
serde = { version = "1", features = ["derive"] }
serde_json = "1"
log = "0.4"
env_logger = "0.4"
