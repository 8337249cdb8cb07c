[package]
name = "a3d"
version = "0.1.0"
edition = "2021"
publish = false

[dependencies]
bytemuck = { version = "1", features = ["derive"] }
clap = { version = "4", features = ["derive"] }
crossterm = "*"
env_logger = "*"
glam = "*"
gltf = "1"
log = "0.4"
pollster = "*"
stl_io = "*"
tobj = "*"
wgpu = "*"
