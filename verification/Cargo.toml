[package]
name = "brush_splat"
version = "0.1.0"
edition = "2021"
publish = false

[dependencies]
anyhow = "1"
async-fn-stream = "*"
clap = { version = "4", features = ["derive"] }
env_logger = "*"
glam = "*"
humantime = "2"
image = { version = "*", default-features = false, features = ["png"] }
indicatif = "*"
indicatif-log-bridge = "*"
log = "0.4"
serde = { version = "1", features = ["derive"] }
serde_json = "1"
serde-ply = "*"
tokio = { version = "1", features = ["fs", "io-util", "macros", "rt-multi-thread", "sync", "time"] }
tokio-stream = "0.1"
tracing = "0.1"
web-time = "1"
