[package]
name = "soma_health"
version = "0.1.0"
edition = "2021"
publish = false

[dependencies]
anyhow = "1"
tokio = { version = "1", features = ["rt", "sync", "time", "macros"] }
tokio-stream = "0.1"
tonic = "*"
