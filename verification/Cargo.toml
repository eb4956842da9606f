[package]
name = "ffmpeg_tool_rs"
version = "0.1.0"
edition = "2021"
publish = false

[dependencies]
openssl = "0.10"
url = "2"
md5 = "0.7"
serde = { version = "1", features = ["derive"] }
serde_json = "1"
reqwest = "0.12"
tokio = { version = "1", features = ["rt-multi-thread", "macros"] }
clap = { version = "4", features = ["derive"] }
