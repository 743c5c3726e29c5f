[package]
name = "pi_oven"
version = "0.1.0"
edition = "2021"
publish = false

[dependencies]
ratatui = "0.29"
tokio = { version = "1", features = ["rt-multi-thread", "macros", "sync", "time", "net"] }
tokio-tungstenite = "0.26"
futures-util = "0.3"
serde = { version = "1", features = ["derive"] }
serde_json = "1"
anyhow = "1"
arboard = "3"
tracing = "0.1"
tracing-subscriber = { version = "0.3", features = ["env-filter"] }
wgpu = "23"
glyphon = "0.7"
winit = "0.30"
pollster = "0.4"
