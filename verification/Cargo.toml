[package]
name = "open_darkroom_lib"
version = "0.1.0"
edition = "2021"
publish = false

[dependencies]
bytemuck = "=1.25.2"
fast_image_resize = "=5.5.0"
half = "=2.7.1"
image = { version = "=0.25.10", default-features = false, features = ["png", "jpeg", "tiff", "webp"] }
rayon = "=1.12.0"
serde = { version = "=1.0.229", features = ["derive"] }
wgpu = "=25.0.2"
