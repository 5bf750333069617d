[package]
name = "board_server"
version = "0.2.2"
edition = "2021"
publish = false

[dependencies]
slab = "0.4"
tokio = { version = "1", features = ["full"] }
tokio-tungstenite = "0.21"
futures-util = "0.3"
futures = "0.3"
