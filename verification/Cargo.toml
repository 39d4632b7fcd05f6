[package]
name = "clipboard_manager"
version = "0.1.0"
edition = "2021"
publish = false

[dependencies]
sha2 = "0.10"
rusqlite = { version = "0.31", features = ["bundled"] }
arboard = "3"
image = { version = "0.25", default-features = false, features = ["png", "jpeg"] }
chrono = "0.4"
serde = { version = "1", features = ["derive"] }
