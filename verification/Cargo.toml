[package]
name = "stagebadger"
version = "0.1.0"
edition = "2021"
publish = false

[dependencies]
serde = { version = "1", features = ["derive"] }
serde_json = "1"
tokio = { version = "1", features = ["process", "io-util", "rt-multi-thread", "macros", "sync", "fs", "time"] }
reqwest = { version = "0.12", default-features = false, features = ["blocking", "stream", "json", "rustls-tls"] }
futures-util = "0.3"
hound = "3"
whisper-rs = "0.16"
cpal = "0.17"
