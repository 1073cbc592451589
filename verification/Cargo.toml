[package]
name = "live_view"
version = "0.1.0"
edition = "2021"
publish = false

[dependencies]
base64 = "0.21"
rand = "0.8"
hmac = "0.12"
sha2 = "0.10"
jwt = "0.16"
serde = { version = "1", features = ["derive"] }
serde_json = "1"
