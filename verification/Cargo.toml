[package]
name = "users_api"
version = "0.1.0"
edition = "2021"
publish = false

[dependencies]
uuid = { version = "=1.27.0", features = ["v4", "serde"] }
serde = { version = "=1.0.229", features = ["derive"] }
serde_json = "=1.0.151"
axum = "=0.8.9"
tokio = { version = "=1.53.2", features = ["rt-multi-thread", "net", "macros"] }
