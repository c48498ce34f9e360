[package]
name = "coinsignal"
version = "0.1.0"
edition = "2021"
publish = false

[dependencies]
serde = { version = "1", features = ["derive"] }
serde_json = "1"
redis = "*"
log = "0.4"
env_logger = "*"
