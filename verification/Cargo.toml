[package]
name = "power_rename_gui"
version = "0.1.0"
edition = "2021"
publish = false

[dependencies]
encoding_rs = "0.8"
flate2 = "1"
eframe = { version = "0.31", default-features = false, features = ["glow", "x11"] }
egui_extras = { version = "0.31", default-features = false }
rfd = "0.15"
