[package]
name = "kiriko"
version = "0.1.0"
edition = "2021"
publish = false

[dependencies]
uuid = { version = "1", features = ["v7", "serde"] }
serde = { version = "1", features = ["derive"] }
serde_json = "1"
blake3 = { version = "1", features = ["pure"] }
realfft = "3"
fontdue = "0.9"
thiserror = "1"
