[package]
name = "friendolls"
version = "0.1.0"
edition = "2021"
publish = false

[dependencies]
base64 = "=0.22.1"
ed25519-dalek = "=2.2.0"
uuid = { version = "=1.29.0", features = ["v4"] }
sha2 = "=0.10.9"
image = { version = "=0.25.10", default-features = false, features = ["png", "jpeg", "webp"] }
serde = { version = "=1.0.229", features = ["derive"] }
serde_json = "=1.0.154"
axum = { version = "0.8", features = ["ws"] }
tokio = { version = "1", features = ["macros", "rt-multi-thread", "net", "sync", "time"] }
futures-util = { version = "0.3", features = ["sink"] }
