[package]
name = "agentdeck"
version = "0.1.0"
edition = "2021"
publish = false

[dependencies]
serde_json = "1"
tokio = { version = "1", features = ["full"] }
tokio-stream = { version = "0.1", features = ["sync"] }
futures-util = "0.3"
axum = "0.8"
reqwest = { version = "0.12", default-features = false, features = ["stream"] }

[dev-dependencies]
tokio = { version = "1", features = ["test-util"] }
