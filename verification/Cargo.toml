[package]
name = "rscholar"
version = "0.1.0"
edition = "2021"
publish = false

[dependencies]
hmac = "0.12"
sha2 = "0.10"
hex = "0.4"
subtle = "2"
uuid = { version = "1", features = ["v4"] }
rand = "0.8"
regex = "1"
regex-syntax = "0.8"
serde = { version = "1", features = ["derive"] }
serde_json = "1"
secrecy = "0.10"
rusqlite = { version = "0.31", features = ["bundled"] }
axum = "0.7"
tokio = { version = "1", features = ["full"] }
reqwest = { version = "0.12", default-features = false, features = ["rustls-tls", "socks"] }
chrono = "0.4"
tracing = "0.1"
anyhow = "1"
async-trait = "0.1"
once_cell = "1"
