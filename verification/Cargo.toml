[package]
name = "ecs"
version = "0.1.0"
edition = "2021"
publish = false

[dependencies]
sparseset = "*"
json = "*"
wgpu = "*"
winit = "*"
pollster = "*"
cgmath = "*"
bytemuck = { version = "*", features = ["derive"] }
image = { version = "*", default-features = false, features = ["png"] }
asset-importer = "*"
