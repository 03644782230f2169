[package]
name = "caevern"
version = "0.1.0"
edition = "2021"
publish = false

[dependencies]
cgmath = "0.18"
image = { version = "*", default-features = false }
rand = "*"
serde = { version = "1", features = ["derive"] }
serde_json = "1"
tungstenite = "*"
