[package]
name = "tunedesk"
version = "0.1.0"
edition = "2021"
publish = false

[dependencies]
quick-xml = "0.37"
url = "2"
serde = { version = "1", features = ["derive"] }
serde_json = "1"
reqwest = { version = "0.12", default-features = false, features = ["json"] }
tauri = { version = "2", default-features = false }
tauri-plugin-updater = { version = "2", default-features = false }
