[package]
name = "cubic"
version = "0.1.0"
edition = "2021"
publish = false

[dependencies]
bytemuck = "1"
log = "0.4"
pollster = "0.4"
wgpu = "*"
winit = "0.30"
web-sys = { version = "0.3", features = ["CanvasRenderingContext2d"] }
