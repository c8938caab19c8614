[package]
name = "packetlens"
version = "0.3.0"
edition = "2021"
publish = false

[dependencies]
etherparse = "*"
serde = { version = "1", features = ["derive"] }
rusqlite = { version = "*", features = ["bundled"] }
libloading = "*"
tauri = { version = "2", default-features = false }
