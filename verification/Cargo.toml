[package]
name = "vvvst"
version = "0.1.0"
edition = "2021"
publish = false

[dependencies]
base64 = "0.22"
mime_guess = "2"
serde = { version = "1", features = ["derive"] }
serde_json = "1"
tokio = { version = "1", features = ["rt", "rt-multi-thread", "sync", "fs", "macros"] }
