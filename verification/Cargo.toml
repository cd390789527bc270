[package]
name = "arcade"
version = "0.1.0"
edition = "2021"
publish = false

[dependencies]
serde = { version = "=1.0.229", features = ["derive"] }
serde_json = "=1.0.154"
base64 = "=0.22.1"
axum = { version = "=0.7.9", features = ["ws"] }
tokio = { version = "=1.54.1", features = ["full"] }
tower-http = { version = "=0.6.11", features = ["fs"] }
futures-util = { version = "=0.3.34", features = ["sink"] }
tracing = "=0.1.44"
tracing-subscriber = { version = "=0.3.23", features = ["env-filter"] }
crossbeam-channel = "=0.5.17"
tokio-tungstenite = "=0.30.0"
webrtc = "=0.14.0"
rtcp = "=0.14.0"
openh264 = "=0.9.9"
libloading = "=0.8.9"
thiserror = "=2.0.21"
bytes = "=1.12.1"
