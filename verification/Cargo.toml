[package]
name = "frostlink"
version = "0.1.0"
edition = "2021"
publish = false

[dependencies]
chrono = "0.4"
cookie = "0.18"
dotenv = "0.15"
lazy_static = "1"
rustls = "0.19"
serde = { version = "1", features = ["derive"] }
serde_json = "1"
tokio = { version = "1", features = ["full"] }
tokio-rustls = "0.22"
uuid = { version = "1", features = ["v4"] }
