[package]
name = "paper2voice"
version = "0.1.0"
edition = "2021"
publish = false

[dependencies]
anyhow = "1"
dirs = "6"
hound = "3.5"
pdf-extract = "0.12"
regex = "1"
rfd = { version = "0.17", default-features = false }
serde = { version = "1", features = ["derive"] }
serde_json = "1"
tauri = { version = "2", default-features = false }
