[package]
name = "ticket_randomizer"
version = "0.1.0"
edition = "2021"
publish = false

[dependencies]
csv = "1"
rand = "0.9"
eframe = { version = "0.32", default-features = false, features = ["default_fonts", "glow", "x11"] }
egui = { version = "0.32", default-features = false }
egui_inbox = "0.9"
env_logger = { version = "0.11", default-features = false }
rfd = "0.15"
