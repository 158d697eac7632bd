[package]
name = "mactranscribe"
version = "0.1.0"
edition = "2021"
publish = false

[dependencies]
uuid = { version = "1", features = ["v4"] }
hound = "3"
dirs = "6"
serde = { version = "1", features = ["derive"] }
thiserror = "2"
tokio = { version = "1", features = ["fs", "io-util", "rt", "macros"] }
reqwest = { version = "0.12", features = ["stream"] }
futures-util = "0.3"
parakeet-rs = "0.4"
