[package]
name = "wakamore"
version = "0.1.0"
edition = "2021"
publish = false

[dependencies]
toml = "*"
rand = "*"
log = "*"
env_logger = "*"
winit = "*"
wgpu = "*"
egui = "*"
egui-wgpu = "*"
egui-winit = "*"
pollster = "*"
bytemuck = { version = "*", features = ["derive"] }
image = { version = "*", default-features = false, features = ["png"] }
