[package]
name = "orderbook"
version = "0.1.0"
edition = "2021"
publish = false

[dependencies]
anyhow = "1"
env_logger = "*"
futures = "0.3"
log = "0.4"
native-tls = "*"
serde_json = "1"
tokio = { version = "1", features = ["rt-multi-thread", "macros", "net", "sync", "time", "io-util"] }
tokio-native-tls = "*"
tokio-tungstenite = "*"
url = "2"
