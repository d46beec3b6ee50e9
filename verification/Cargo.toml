[package]
name = "csgo_stocks"
version = "0.1.0"
edition = "2021"
publish = false

[dependencies]
anyhow = "1"
directories = "5"
futures = "0.3"
http-cache-reqwest = "0.11"
itertools = "0.11"
reqwest = { version = "0.11", default-features = false, features = ["rustls-tls", "json"] }
reqwest-middleware = "0.2"
serde = { version = "1", features = ["derive"] }
serde-aux = "4"
serde_json = "1"
thiserror = "1"
tokio = { version = "1", features = ["full"] }
ts-rs = "6"
urlencoding = "2"
