[package]
name = "net_power"
version = "0.1.0"
edition = "2021"
publish = false

[dependencies]
serde = { version = "1", features = ["derive"] }
serde_json = "1"
url = "2"
httparse = "1"
aes-gcm = "0.10"
base64 = "0.22"
rand = "0.8"
