[package]
name = "bastionai"
version = "0.1.0"
edition = "2021"
publish = false

[dependencies]
ring = "0.17"
uuid = { version = "1", features = ["v4"] }
tch = "0.8"
tokio = { version = "1", features = ["rt-multi-thread", "macros", "sync"] }
tokio-stream = "0.1"
tonic = "0.8"
