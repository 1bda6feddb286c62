[package]
name = "chat_core"
version = "0.1.0"
edition = "2021"
publish = false

[dependencies]
fastrand = "*"
tokio = { version = "*", features = ["full"] }
tokio-util = { version = "*", features = ["codec"] }
futures = "*"
anyhow = "*"
