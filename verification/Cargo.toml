[package]
name = "ms_websocket"
version = "0.1.0"
edition = "2021"
publish = false

[dependencies]
dashmap = "=6.2.1"
fbc-starter = { version = "=0.1.24", default-features = false, features = ["redis", "nacos"] }
serde = { version = "=1.0.229", features = ["derive"] }
serde_json = "=1.0.154"
uuid = { version = "=1.29.0", features = ["v4"] }
chrono = { version = "=0.4.45", features = ["serde"] }
anyhow = "=1.0.104"
async-trait = "=0.1.92"
tracing = "=0.1.44"
tokio = { version = "1", features = ["full"] }
axum = { version = "0.8", features = ["ws"] }
futures = "0.3"
redis = { version = "0.32", features = ["tokio-comp"] }
config = "0.15"
