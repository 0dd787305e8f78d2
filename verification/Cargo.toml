[package]
name = "wireframe"
version = "0.1.0"
edition = "2021"
publish = false

[dependencies]
bevy_utils = "=0.14.2"
rand = "0.8"
serde = { version = "1", features = ["derive"] }
serde_json = "1"
anyhow = "1"
tracing = "0.1"
