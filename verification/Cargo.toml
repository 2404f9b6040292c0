[package]
name = "score_tracker"
version = "0.1.0"
edition = "2021"
publish = false

[dependencies]
chrono = { version = "=0.4.45", features = ["serde"] }
num-format = "=0.4.4"
serde = { version = "=1.0.229", features = ["derive"] }
serde_json = "=1.0.151"
eframe = { version = "=0.36.2", default-features = false, features = ["glow", "x11", "default_fonts"] }
egui_plot = "=0.37.0"
