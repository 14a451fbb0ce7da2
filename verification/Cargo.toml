[package]
name = "orthrus"
version = "0.1.0"
edition = "2021"
publish = false

[dependencies]
egui = "=0.31.1"
egui_kittest = { version = "=0.31.1", features = ["snapshot"] }
accesskit = "=0.17.1"
macroquad = "=0.4.16"
image = { version = "=0.24.9", default-features = false, features = ["png"] }
