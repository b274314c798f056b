[package]
name = "rustrtc"
version = "0.1.0"
edition = "2021"
publish = false

[dependencies]
anyhow = "=1.0.104"
bytes = "=1.12.1"
p256 = { version = "=0.13.2", features = ["ecdh"] }
sha2 = "=0.10.9"
tokio = { version = "=1.54.1", features = ["net", "rt", "sync", "time"] }
tracing = "=0.1.44"
