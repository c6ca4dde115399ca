[package]
name = "tagnav"
version = "0.1.0"
edition = "2021"
publish = false

[dependencies]
egui = "=0.22.0"
egui_extras = { version = "=0.22.0", features = ["image"] }
image = { version = "=0.24.9", default-features = false, features = ["png", "jpeg"] }
colored = "=2.2.0"
