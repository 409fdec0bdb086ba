[package]
name = "limusic"
version = "0.1.0"
edition = "2021"
publish = false

[dependencies]
serde = { version = "=1.0.229", features = ["derive"] }
serde_json = "=1.0.154"
regex = "=1.13.1"
base64 = "0.22"
rand = "0.8"
urlencoding = "2"
