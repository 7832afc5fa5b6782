[package]
name = "gemma4_serving"
version = "0.1.0"
edition = "2021"
publish = false

[dependencies]
anyhow = "1"
axum = "0.8"
chrono = "0.4"
dashmap = "6"
moka = { version = "0.12", features = ["future"] }
reqwest = { version = "0.12", default-features = false, features = ["json", "rustls-tls"] }
serde = { version = "1", features = ["derive"] }
serde_json = "1"
tokio = { version = "1", features = ["rt-multi-thread", "macros", "sync", "time"] }
tracing = "0.1"
utoipa = "5"
uuid = { version = "1", features = ["v4"] }
validator = { version = "0.20", features = ["derive"] }
