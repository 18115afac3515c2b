[package]
name = "electrum_discovery"
version = "0.1.0"
edition = "2021"
publish = false

[dependencies]
bitcoin = "*"
serde = { version = "1", features = ["derive"] }
