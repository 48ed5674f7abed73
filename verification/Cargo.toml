[package]
name = "sphere_physics"
version = "0.1.0"
edition = "2021"
publish = false

[dependencies]
anyhow = "1"
bytemuck = { version = "1", features = ["derive"] }
cgmath = "0.18"
log = "0.4"
log4rs = "1"
pollster = "*"
wgpu = "*"
winit = "0.30"
