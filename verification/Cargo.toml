[package]
name = "klyradb"
version = "0.1.0"
edition = "2021"
publish = false

[dependencies]
serde = { version = "1", features = ["derive"] }
serde_json = "1"
getrandom = "0.2"
include_dir = "0.7"
tauri = { version = "2", default-features = false }

[dev-dependencies]
tempfile = "3"
