[package]
name = "triangle_gator"
version = "0.1.0"
edition = "2021"
publish = false

[dependencies]
egui = "=0.31.1"
egui_plot = "=0.31.0"
image = { version = "=0.25.10", default-features = false, features = ["png"] }
