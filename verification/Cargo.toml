[package]
name = "jito_client"
version = "0.1.0"
edition = "2021"
publish = false

[dependencies]
anyhow = "=1.0.104"
base64 = "=0.22.1"
bincode = "=1.3.3"
form_urlencoded = "=1.2.2"
futures = "=0.3.34"
get_if_addrs = "=0.5.3"
load-balancer = "=0.4.6"
reqwest = { version = "=0.12.28", features = ["json"] }
serde = { version = "=1.0.229", features = ["derive"] }
serde_json = "=1.0.154"
