[package]
name = "quiz_engine"
version = "0.1.0"
edition = "2021"
publish = false

[dependencies]
ezrng = "*"
egui = "0.31"
eframe = { version = "0.31", default-features = false, features = ["default_fonts", "glow", "persistence", "x11"] }
serde = { version = "1", features = ["derive"] }
serde_json = "1"
