[package]
name = "netdiag"
version = "1.2.0"
edition = "2021"
publish = false

[dependencies]
sha2 = "0.10"
chrono = "0.4"
serde = { version = "1", features = ["derive"] }
serde_json = "1"
tokio = { version = "1", features = ["full"] }
futures = "0.3"
socket2 = "0.5"
if-addrs = "0.13"
