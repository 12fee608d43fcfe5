[package]
name = "mirrord_console"
version = "0.1.0"
edition = "2021"
publish = false

[dependencies]
log = { version = "=0.4.34", features = ["std"] }
tungstenite = "=0.30.0"
