[package]
name = "quotefeed"
version = "0.1.0"
edition = "2021"
publish = false

[dependencies]
base64 = "=0.22.1"
chrono = "=0.4.45"
reqwest = { version = "=0.12.28", default-features = false }
rocket = { version = "=0.5.1", features = ["secrets"] }
rocket_ws = "=0.1.1"
serde = { version = "=1.0.229", features = ["derive"] }
serde_json = "=1.0.151"
