[package]
name = "ws_s"
version = "0.1.0"
edition = "2021"
publish = false

[dependencies]
anyhow = "1"
axum = { version = "0.7", features = ["ws"] }
clap = { version = "4", features = ["derive"] }
futures-channel = "0.3"
futures-util = { version = "0.3", features = ["sink"] }
log = "0.4"
rfd = "0.15"
serde = { version = "1", features = ["derive"] }
serde-wasm-bindgen = "0.6"
simple_logger = "*"
tokio = { version = "1", features = ["full"] }
tokio-stream = { version = "0.1", features = ["time"] }
tokio-tungstenite = "0.24"
tower-http = { version = "0.5", features = ["cors", "fs"] }
uuid = { version = "1", features = ["v4"] }
wasm-bindgen = "0.2"
