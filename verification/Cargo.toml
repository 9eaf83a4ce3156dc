[package]
name = "gt"
version = "0.1.0"
edition = "2021"
publish = false

[dependencies]
anyhow = "=1.0.104"
bytes = "=1.12.1"
clap = { version = "=4.6.7", features = ["derive"] }
http-body-util = "=0.1.5"
hyper = { version = "=1.12.0", features = ["client", "http1"] }
log = "=0.4.34"
serde = { version = "=1.0.229", features = ["derive"] }
serde_json = "=1.0.151"
tokio = { version = "=1.53.2", features = ["rt", "rt-multi-thread", "io-util", "sync", "macros", "time"] }
webrtc = "=0.11.0"
