[package]
name = "hifi_wifi"
version = "0.1.0"
edition = "2021"
publish = false

[dependencies]
anyhow = "1"
log = "0.4"
reqwest = { version = "0.12", features = ["blocking"] }
tempfile = "3"
tokio = { version = "1", features = ["time"] }
