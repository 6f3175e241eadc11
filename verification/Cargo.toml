[package]
name = "rrate_limiter"
version = "0.1.0"
edition = "2021"
publish = false

[dependencies]
matchit = "=0.9.2"
uuid = { version = "=1.27.0", features = ["v4"] }
redis = { version = "=1.7.1", features = ["tokio-comp", "json", "connection-manager"] }
tokio = { version = "=1.53.2", features = ["full"] }
axum = "=0.8.9"
serde = { version = "=1.0.229", features = ["derive"] }
serde_yaml = "=0.9.34"
anyhow = "=1.0.104"
futures-util = "=0.3.34"
