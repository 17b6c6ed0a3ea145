[package]
name = "lazydb"
version = "0.1.0"
edition = "2021"
publish = false

[dependencies]
base64 = "0.22"
chrono = "0.4"
serde = "1"
serde_json = "1"
sqlparser = "*"
unicode-width = "0.2"
uuid = "1"
tokio = { version = "1", features = ["rt", "sync"] }
