[package]
name = "sound_fx"
version = "0.1.0"
edition = "2021"
publish = false

[dependencies]
anyhow = "=1.0.104"
uuid = { version = "=1.29.0", features = ["v4"] }
egui = "=0.37.0"
eframe = { version = "=0.37.0", default-features = false, features = ["glow", "default_fonts", "x11"] }
clipboard-win = "=5.4.3"
