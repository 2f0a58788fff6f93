[package]
name = "shortlinks"
version = "0.1.0"
edition = "2021"
publish = false

[dependencies]
anyhow = "=1.0.104"
base64 = "=0.21.7"
bytes = "=1.12.1"
env_logger = "=0.10.2"
http = "=1.5.0"
log = "=0.4.34"
rand = "=0.8.8"
serde = { version = "=1.0.229", features = ["derive"] }
serde_json = "=1.0.154"
spin-sdk = "=7.0.0"
