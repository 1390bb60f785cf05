[package]
name = "invoice_scanner"
version = "0.1.0"
edition = "2021"
publish = false

[dependencies]
anyhow = "1.0"
chrono = "0.4"
eframe = { version = "0.21", default-features = false, features = ["default_fonts", "glow"] }
egui = "0.21"
env_logger = "0.10"
log = "0.4"
opencv = "0.82"
scrap = "0.5"
serde_json = "1.0"
thiserror = "1.0"
