[package]
name = "uhttp"
version = "0.1.0"
edition = "2021"
publish = false

[dependencies]
anyhow = "=1.0.104"
async-compression = { version = "=0.4.52", features = ["tokio", "gzip", "brotli", "zstd"] }
base64 = "=0.23.1"
futures = "=0.3.34"
http = "=1.5.0"
http-body-util = "=0.1.5"
hyper = { version = "=1.12.0", features = ["server", "http1", "http2"] }
hyper-util = { version = "=0.1.21", features = ["full"] }
mime_guess = "=2.0.5"
path-tree = "=0.8.3"
percent-encoding = "=2.3.2"
serde = { version = "=1.0.229", features = ["derive"] }
serde_json = { version = "=1.0.154", features = ["preserve_order"] }
serde_urlencoded = "=0.7.1"
tokio = { version = "=1.54.1", features = ["full"] }
tokio-tungstenite = "=0.30.0"
tokio-util = { version = "=0.7.20", features = ["full"] }
