[package]
name = "chess_menu"
version = "0.1.0"
edition = "2021"
publish = false

[dependencies]
rand = "0.8"
wgpu = "*"
winit = "0.30"
pollster = "*"
anyhow = "1"
log = "0.4"
ab_glyph = "*"
image = { version = "*", default-features = false, features = ["png"] }
bytemuck = { version = "1", features = ["derive"] }
serde = { version = "1", features = ["derive"] }
