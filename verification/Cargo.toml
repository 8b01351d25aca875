[package]
name = "raytracer"
version = "0.1.0"
edition = "2021"
publish = false

[dependencies]
anyhow = "1"
clap = { version = "4", features = ["derive"] }
image = { version = "0.24", default-features = false, features = ["png", "jpeg"] }
pixels = "0.13"
serde = { version = "1", features = ["derive"] }
serde_yaml = "0.9"
ultraviolet = { version = "0.9", features = ["serde"] }
winit = "0.28"
winit_input_helper = "0.14"
