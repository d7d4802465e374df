[package]
name = "landscape"
version = "0.1.0"
edition = "2021"
publish = false

[dependencies]
image = { version = "0.25", default-features = false, features = ["png"] }
bytemuck = { version = "1", features = ["derive"] }
cgmath = "0.18"
wgpu = "0.20"
wgpu_text = "0.8"
winit = "0.30"
tokio = { version = "1", features = ["macros", "rt-multi-thread"] }
pollster = "0.3"
env_logger = "0.11"
log = "0.4"
