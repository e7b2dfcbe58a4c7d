[package]
name = "ghost"
version = "0.1.0"
edition = "2021"
publish = false

[dependencies]
regex = "1"
serde_json = "1"
serde = { version = "1", features = ["derive"] }
rand = "0.8"
time = { version = "0.3", features = ["formatting"] }
arc-swap = "1"
parking_lot = "0.12"
tokio = { version = "1", features = ["rt-multi-thread", "sync"] }
reqwest = { version = "0.12", default-features = false, features = ["stream"] }
futures-util = "0.3"
