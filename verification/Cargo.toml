[package]
name = "stream_converter"
version = "0.1.0"
edition = "2021"
publish = false

[dependencies]
axum = "0.7"
blake3 = { version = "1", features = ["pure"] }
bytes = "1"
chrono = "0.4"
futures = "0.3"
rand = "0.8"
reqwest = { version = "0.12", default-features = false, features = ["json", "stream", "rustls-tls"] }
serde = { version = "1", features = ["derive"] }
serde_json = "1"
tokio = { version = "1", features = ["full"] }
tokio-stream = "0.1"
tracing = "0.1"
tracing-subscriber = { version = "0.3", features = ["env-filter"] }
url = "2"
uuid = { version = "1", features = ["v4"] }
