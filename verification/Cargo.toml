[package]
name = "image_organizer"
version = "0.1.0"
edition = "2021"
publish = false

[dependencies]
anyhow = "1.0.104"
eframe = { version = "0.36.2", default-features = false, features = ["glow", "x11", "default_fonts"] }
egui_extras = { version = "0.36.2", default-features = false, features = ["image"] }
env_logger = "*"
log = "*"
rfd = "*"
