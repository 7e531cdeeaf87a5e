[package]
name = "danmaku"
version = "0.1.0"
edition = "2021"
publish = false

[dependencies]
anyhow = "1"
bincode = "1"
futures = "0.3"
hex = "0.4"
md-5 = "0.10"
regex = "1"
reqwest = { version = "0.12", default-features = false, features = ["json", "stream"] }
serde = { version = "1", features = ["derive"] }
serde_json = "1"
tokio = { version = "1", features = ["fs", "io-util", "sync"] }
tracing = "0.1"
unicode-segmentation = "1"
url = "2"
