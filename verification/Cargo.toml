[package]
name = "tree_tables"
version = "0.1.0"
edition = "2021"
publish = false

[dependencies]
uuid = { version = "=1.29.0", features = ["v4"] }
serde = { version = "=1.0.229", features = ["derive"] }
serde_json = "=1.0.154"
eframe = { version = "=0.27.2", default-features = false, features = ["default_fonts", "glow", "persistence"] }
egui = "=0.27.2"
egui-keybind = "=0.3.0"
rfd = "=0.17.2"
