[package]
name = "keydraw"
version = "0.1.0"
edition = "2021"
publish = false

[dependencies]
bytemuck = { version = "1", features = ["derive"] }
wgpu = "28"
winit = "0.30"
glam = "0.30"
anyhow = "1"
log = "0.4"
env_logger = "0.11"
