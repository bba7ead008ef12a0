[package]
name = "roblox_steam_launcher"
version = "0.1.0"
edition = "2021"
publish = false

[dependencies]
hyper = { version = "0.14", features = ["client", "http1", "tcp"] }
tokio = { version = "1", features = ["rt"] }
notify = "4"
winreg = "*"

[dev-dependencies]
serde_json = "1"
