[package]
name = "kimi_ui"
version = "0.1.18"
edition = "2021"
publish = false

[dependencies]
base64 = "0.22"
include_dir = "0.7"
serde = { version = "1", features = ["derive"] }
serde_json = "1"
tauri = { version = "2", default-features = false, features = ["wry", "unstable", "devtools", "dynamic-acl"] }
tauri-plugin-process = "2"
tauri-plugin-window-state = "2"
url = "2"
