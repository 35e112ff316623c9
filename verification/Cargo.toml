[package]
name = "eddy"
version = "0.1.0"
edition = "2021"
publish = false

[dependencies]
anyhow = "1"
rand = "*"
serde = { version = "1", features = ["derive"] }
serde_json = "1"
