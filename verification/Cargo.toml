[package]
name = "miband_totp"
version = "0.1.0"
edition = "2021"
publish = false

[dependencies]
base64 = "0.22"
image = { version = "0.25", default-features = false, features = ["png", "jpeg"] }
rqrr = { version = "*", default-features = false }
serde_json = "1"
serde = { version = "1", features = ["derive"] }
