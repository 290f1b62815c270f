[package]
name = "yoric"
version = "0.1.0"
edition = "2021"
publish = false

[dependencies]
rand = "0.8"
uuid = { version = "1", features = ["v4"] }
serde = { version = "1", features = ["derive"] }
bincode = "1"
tokio = { version = "1", features = ["full"] }
tokio-tungstenite = "*"
tungstenite = "*"
futures = "0.3"
futures-util = "0.3"
url = "2"
cursive = { version = "0.21", default-features = false, features = ["crossterm-backend", "toml"] }
log = "0.4"
env_logger = "*"
