[package]
name = "code_notes"
version = "0.1.0"
edition = "2021"
publish = false

[dependencies]
base64 = "=0.22.1"
bytemuck = { version = "=1.25.2", features = ["derive", "extern_crate_alloc"] }
cgmath = "=0.18.0"
gltf = "=1.4.1"
image = { version = "=0.25.10", default-features = false, features = ["png", "jpeg"] }
pollster = "=0.4.0"
wgpu = "=25.0.2"
winit = "=0.30.13"
