[package]
name = "ade_core"
version = "0.1.0"
edition = "2021"
publish = false

[dependencies]
glob = "0.3"
notify = "6"
portable-pty = "0.8"
serde = { version = "1", features = ["derive"] }
tauri = { version = "2", default-features = false }
