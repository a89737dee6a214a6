[package]
name = "toy_rnn"
version = "0.1.0"
edition = "2021"
publish = false

[dependencies]
bytemuck = { version = "1", features = ["derive"] }
image = { version = "0.25", default-features = false, features = ["png"] }
pollster = "0.4"
rand = "0.9"
serde = { version = "1", features = ["derive"] }
serde_json = "1"
wgpu = "25"
winit = "0.30"
