[package]
name = "lunch_bot"
version = "0.1.0"
edition = "2021"
publish = false

[dependencies]
env_logger = "=0.5.13"
failure = "=0.1.8"
irc = "=0.13.6"
log = "=0.4.34"
tokio-timer = "=0.1.2"

[dev-dependencies]
regex = "=1.13.1"
serde_json = { version = "=1.0.154", features = ["preserve_order"] }
