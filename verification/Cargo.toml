[package]
name = "relay_server"
version = "0.1.0"
edition = "2021"
publish = false

[dependencies]
anyhow = "1"
async-speed-limit = "0.4"
async-trait = "0.1"
base64 = "0.13"
bytes = "1"
futures-util = "0.3"
lazy_static = "1.4"
log = "0.4"
sodiumoxide = "0.2"
tokio = { version = "1", features = ["full"] }
tokio-tungstenite = "0.17"
tungstenite = "0.17"
