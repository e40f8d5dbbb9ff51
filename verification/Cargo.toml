[package]
name = "bonzomatic_texture_manager"
version = "0.1.0"
edition = "2021"
publish = false

[dependencies]
eframe = { version = "*", default-features = false, features = ["default_fonts", "glow", "x11"] }
egui_extras = { version = "*", default-features = false, features = ["file", "image"] }
env_logger = { version = "*", default-features = false }
image = { version = "*", default-features = false, features = ["jpeg", "png"] }
serde_json = "1"
zip = { version = "*", default-features = false, features = ["deflate"] }
