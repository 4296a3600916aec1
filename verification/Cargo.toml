[package]
name = "influxproxy"
version = "0.1.0"
edition = "2021"
publish = false

[dependencies]
anyhow = "1"
axum = "0.6"
reqwest = { version = "0.11", default-features = false }
serde_json = "1"
structopt = "0.3"
tokio = { version = "1", features = ["full"] }
tracing-subscriber = "0.3"
