[package]
name = "track2line"
version = "0.1.0"
edition = "2021"
publish = false

[dependencies]
home = "*"
serde = { version = "*", features = ["derive"] }
toml = "*"
rodio = "*"
whisper-rs = "*"
