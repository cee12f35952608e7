[package]
name = "rebalancer"
version = "0.1.0"
edition = "2021"
publish = false

[dependencies]
base64 = "*"
hmac = "*"
sha2 = "*"
serde_urlencoded = "*"
serde = { version = "*", features = ["derive"] }
serde_json = "*"
reqwest = { version = "*", default-features = false }
tokio = { version = "*", features = ["macros", "rt-multi-thread", "net", "signal", "sync", "time"] }
tokio-tungstenite = "*"
futures-util = "*"
dotenv = "*"
