[package]
name = "linkleaf_feed"
version = "0.1.0"
edition = "2021"
publish = false

[dependencies]
chrono = "=0.4.45"
serde = { version = "=1.0.229", features = ["derive"] }
sha2 = "=0.11.1"
uuid = { version = "=1.29.0", features = ["serde"] }
