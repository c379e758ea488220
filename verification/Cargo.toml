[package]
name = "llama_pack"
version = "0.1.0"
edition = "2021"
publish = false

[dependencies]
anyhow = "*"
arrow-array = "*"
arrow-buffer = "*"
arrow-schema = "*"
chrono = "*"
serde = { version = "*", features = ["derive"] }
serde_json = "*"
uuid = { version = "*", features = ["v4"] }
