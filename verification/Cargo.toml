[package]
name = "notos"
version = "0.1.0"
edition = "2021"
publish = false

[dependencies]
anyhow = "1"
arboard = { version = "3", default-features = false }
base64 = "0.22"
chrono = { version = "0.4", default-features = false, features = ["clock"] }
eframe = { version = "0.29", default-features = false, features = ["default_fonts", "glow", "x11"] }
egui = "0.29"
encoding_rs = "0.8"
env_logger = { version = "0.11", default-features = false }
image = { version = "0.25", default-features = false, features = ["ico", "png"] }
libloading = "0.8"
log = "0.4"
rfd = "0.15"
serde = { version = "1", features = ["derive"] }
serde_json = "1"
