[package]
name = "software_graphics"
version = "0.1.0"
edition = "2021"
publish = false

[dependencies]
anyhow = "1.0"
bytemuck = { version = "1.4", features = ["derive"] }
cgmath = "0.18"
futures = "0.3"
image = "0.23"
serde = { version = "1.0", features = ["derive"] }
serde_json = "1.0"
wgpu = "0.9"
winit = "0.25"
