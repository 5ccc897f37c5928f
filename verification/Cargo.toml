[package]
name = "dispatch_core"
version = "0.1.0"
edition = "2021"
publish = false

[dependencies]
cnctd_server = "*"
serde = { version = "*", features = ["derive"] }
serde_json = "*"
tokio = { version = "*", features = ["rt-multi-thread", "macros"] }
dotenv = "*"
local-ip-address = "*"
anyhow = "*"
