[package]
name = "multivm_workspace"
version = "0.1.0"
edition = "2021"
publish = false

[dependencies]
uuid = { version = "1", features = ["v4"] }
chrono = "0.4"
serde = { version = "1", features = ["derive"] }
serde_json = "1"
ssh2 = "0.9"
ssh2-config = "*"
dirs = "*"
