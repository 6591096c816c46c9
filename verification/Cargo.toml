[package]
name = "dirbundle"
version = "0.1.0"
edition = "2021"
publish = false

[dependencies]
anyhow = "1"
globset = "*"
serde = { version = "1", features = ["derive"] }
serde_yaml = "*"
walkdir = "2"
