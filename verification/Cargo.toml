[package]
name = "pulse"
version = "0.1.0"
edition = "2021"
publish = false

[dependencies]
rs-netty = { version = "=1.1.0", features = ["tls", "websocket"] }
bytes = "=1.12.1"
tokio = { version = "=1.54.1", features = ["full"] }
rusqlite = { version = "=0.41.1", features = ["bundled"] }
mysql = { version = "=28.0.4", default-features = false, features = ["minimal"] }
serde = { version = "=1.0.229", features = ["derive"] }
toml = "=1.1.8"
tracing = "=0.1.44"
tracing-subscriber = { version = "=0.3.23", features = ["env-filter"] }
metrics = "=0.24.6"
metrics-exporter-prometheus = "=0.18.3"
