[package]
name = "ccproxy"
version = "0.1.0"
edition = "2021"
publish = false

[dependencies]
rand = "0.9"
rust-raknet = "*"
tokio = { version = "1", features = ["full"] }
tokio-graceful-shutdown = "*"
tracing = "0.1"
