[package]
name = "lark"
version = "0.1.0"
edition = "2021"
publish = false

[dependencies]
anyhow = "*"
arboard = "*"
base64 = "*"
chrono = "*"
image = { version = "*", default-features = false, features = ["png", "jpeg"] }
pinyin = "*"
rusqlite = { version = "*", features = ["bundled"] }
rust-crypto = "*"
serde = { version = "*", features = ["derive"] }
serde_json = "*"
walkdir = "*"
