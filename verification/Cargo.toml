[package]
name = "destyle"
version = "0.1.0"
edition = "2021"
publish = false

[dependencies]
egui_dock = { version = "=0.11.4", features = ["serde"] }
egui = "=0.26.2"
eframe = { version = "0.26", default-features = false, features = ["glow", "persistence"] }
log = "=0.4.34"
serde = { version = "=1.0.229", features = ["derive"] }

[dev-dependencies]
ron = "=0.8.1"
