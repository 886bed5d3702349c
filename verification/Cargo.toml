[package]
name = "uat_runner"
version = "0.1.0"
edition = "2021"
publish = false

[dependencies]
serde_json = "1"
serde = { version = "1", features = ["derive"] }
clap = { version = "4", features = ["derive"] }
colored = "2"
winsafe = { version = "*", features = ["advapi", "shell"] }
