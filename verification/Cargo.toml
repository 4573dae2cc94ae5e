[package]
name = "pdf_engine"
version = "0.1.0"
edition = "2021"
publish = false

[dependencies]
axum = { version = "=0.8.9", features = ["multipart"] }
chrono = "=0.4.45"
lopdf = { version = "=0.46.0", default-features = false }
minijinja = "2.24.0"
opendal = { version = "=0.59.5", features = ["services-s3"] }
serde = { version = "=1.0.229", features = ["derive"] }
serde_json = "=1.0.154"
thiserror = "=2.0.21"
tokio = { version = "=1.54.1", features = ["full"] }
tokio-util = "=0.7.20"
tracing = "=0.1.44"
