[package]
name = "transcribeasy"
version = "0.1.0"
edition = "2021"
publish = false

[dependencies]
hound = "=3.5.1"
serde = { version = "1", features = ["derive"] }
whisper-rs = "0.15"
