[package]
name = "cggmp_session"
version = "0.1.0"
edition = "2021"
publish = false

[dependencies]
sha2 = "=0.10.9"
hex = "=0.4.3"
base64 = "=0.23.1"
serde = { version = "=1.0.229", features = ["derive"] }
serde_json = "=1.0.151"
bincode = "=1.3.3"
rand = "=0.8.8"
round-based = { version = "=0.4.1", features = ["state-machine"] }
