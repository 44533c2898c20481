[package]
name = "wormhole"
version = "0.1.0"
edition = "2021"
publish = false

[dependencies]
futures = "*"
tokio = { version = "*", features = ["macros", "rt-multi-thread", "time", "net"] }
tokio-tungstenite = "*"
tungstenite = "*"
log = "*"
colour = "*"
human-panic = "*"
