[package]
name = "dotrix_render"
version = "0.1.0"
edition = "2021"
publish = false

[dependencies]
wgpu = "0.13"
futures = "0.3"
bytemuck = "1"
