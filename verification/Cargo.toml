[package]
name = "toneframe"
version = "0.1.0"
edition = "2021"
publish = false

[dependencies]
serde = { version = "1", features = ["derive"] }
serde_json = "1"
cpal = "0.15"
midir = "0.10"
objc2 = "0.6"
block2 = "0.6"
objc2-av-foundation = "0.3"
