[package]
name = "collab_mode"
version = "0.1.0"
edition = "2021"
publish = false

[dependencies]
anyhow = "=1.0.104"
async-trait = "=0.1.92"
base64 = "=0.22.1"
bytes = "=1.12.1"
fmt-derive = "=0.1.2"
futures-util = "=0.3.34"
lsp-server = "=0.7.9"
openssh = "=0.11.6"
rand = "=0.8.8"
ring = "=0.17.14"
rusqlite = { version = "=0.41.1", features = ["bundled"] }
serde = { version = "=1.0.229", features = ["derive"] }
serde_json = "=1.0.154"
tempfile = "=3.27.0"
thiserror = "=1.0.69"
tokio = { version = "=1.54.1", features = ["full"] }
tokio-tungstenite = "=0.24.0"
tracing = "=0.1.44"
tracing-subscriber = { version = "=0.3.23", features = ["env-filter"] }
uuid = { version = "=1.29.0", features = ["v4"] }
webrtc-dtls = "=0.12.0"
webrtc-ice = "=0.13.0"
webrtc-sctp = "=0.12.0"
webrtc-util = "=0.11.0"
x509-parser = "=0.16.0"

[dev-dependencies]
rcgen = "=0.13.2"
