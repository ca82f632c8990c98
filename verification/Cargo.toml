[package]
name = "port_handshake"
version = "0.1.0"
edition = "2021"
publish = false

[dependencies]
fork = "*"
serde = { version = "*", features = ["derive"] }
serde_json = "*"
tempfile = "*"
