[package]
name = "gpg_bridge"
version = "0.1.0"
edition = "2021"
publish = false

[dependencies]
regex = "1"
tokio = { version = "1", features = ["process", "io-util"] }
tauri = { version = "*", default-features = false }
