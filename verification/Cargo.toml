[package]
name = "plinth"
version = "0.1.0"
edition = "2021"
publish = false

[dependencies]
uuid = { version = "=1.29.0", features = ["v4"] }
walkdir = "=2.5.0"
serde = { version = "=1.0.229", features = ["derive"] }
serde_json = "=1.0.154"
blake3 = "=1.8.7"
zip = { version = "2", default-features = false, features = ["deflate"] }
