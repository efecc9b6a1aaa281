[package]
name = "ack_relay"
version = "0.1.0"
edition = "2021"
publish = false

[dependencies]
redb = "=4.3.0"
serde_json = "=1.0.151"
serde = { version = "=1.0.229", features = ["derive"] }
log = "=0.4.34"
env_logger = "=0.11.11"
prometheus = "=0.14.0"
ntex = { version = "=3.11.0", features = ["tokio"] }
ntex-http = "=1.2.0"
reqwest = { version = "=0.13.5", default-features = false, features = ["json"] }
