[package]
name = "ragchew_gui"
version = "0.1.0"
edition = "2021"
publish = false

[dependencies]
clap = { version = "=4.6.7", features = ["derive"] }
cpal = "=0.18.2"
eframe = { version = "*", default-features = false, features = ["glow", "persistence", "x11", "default_fonts"] }
egui-elegance = "*"
rfd = { version = "=0.17.2", default-features = false, features = ["xdg-portal"] }
serde = { version = "=1.0.229", features = ["derive"] }
