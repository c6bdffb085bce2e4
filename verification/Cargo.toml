[package]
name = "chess_voice_studio"
version = "0.1.0"
edition = "2021"
publish = false

[dependencies]
md5 = "0.8"
serde = { version = "1", features = ["derive"] }
serde_json = "1"
eframe = { version = "*", default-features = false, features = ["glow", "x11", "default_fonts", "persistence"] }
