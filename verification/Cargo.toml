[package]
name = "shadow_fit"
version = "0.1.0"
edition = "2021"
publish = false

[dependencies]
bytemuck = { version = "=1.25.2", features = ["derive"] }
pollster = "=0.3.0"
wgpu = "0.16"
winit = { version = "=0.28.7", default-features = false, features = ["x11"] }
