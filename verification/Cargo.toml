[package]
name = "minio-xml-validator"
version = "0.1.0"
edition = "2021"
publish = false

[dependencies]
anyhow = "=1.0.104"
bytes = "=1.12.1"
crossbeam-channel = "=0.5.17"
futures-util = "=0.3.34"
minio = { version = "=0.4.0", default-features = false, features = ["default-crypto", "http2", "rustls-tls"] }
prost = "=0.13.5"
serde = { version = "=1.0.229", features = ["derive"] }
tokio = { version = "=1.54.1", features = ["full"] }
tokio-stream = "=0.1.19"
toml = "=0.8.23"
tonic = "=0.13.1"
tracing = "=0.1.44"
tracing-subscriber = "=0.3.23"
