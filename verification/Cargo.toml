[package]
name = "order_book"
version = "0.1.0"
edition = "2021"
publish = false

[dependencies]
futures = "0.3"
regex = "1"
rust_decimal = "1"
serde = { version = "1", features = ["derive"] }
serde_json = "1"
tokio = { version = "1", features = ["rt-multi-thread", "macros", "sync", "net", "time"] }
tokio-tungstenite = "*"
url = "2"
