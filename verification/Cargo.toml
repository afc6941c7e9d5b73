[package]
name = "manga_editor"
version = "0.1.0"
edition = "2021"
publish = false

[dependencies]
egui = { version = "0.34", default-features = false }
image = { version = "0.25", default-features = false, features = ["png", "jpeg", "webp"] }
serde_json = "1"
uuid = { version = "1", features = ["v4"] }
