[package]
name = "trouper"
version = "0.1.0"
edition = "2021"
publish = false

[dependencies]
arc-swap = "1"
async-trait = "0.1"
daow = "*"
error-stack = "*"
parking_lot = "0.12"
rusqlite = "*"
serde = { version = "1", features = ["derive", "rc"] }
serde_json = "1"
smallvec = { version = "1", features = ["serde"] }
tokio = { version = "1", features = ["full"] }
tracing = "0.1"
uuid = { version = "1", features = ["v4", "v7", "serde"] }
wherror = "*"
