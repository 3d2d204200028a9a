[package]
name = "echo"
version = "0.1.0"
edition = "2021"
publish = false

[dependencies]
base64 = "0.21"
uuid = { version = "1", features = ["v4"] }
webrtc-vad = "0.4"
serde = { version = "1", features = ["derive"] }
colored = "2"
tokio = { version = "1", features = ["full"] }
tokio-util = { version = "0.7", features = ["codec"] }
futures = "0.3"
lazy_static = "1"
once_cell = "1"
rubato = "0.15"
hound = "3"
jack = "0.13"
neon = "1"
actix-web = "4"
whisper-rs = "0.13"
