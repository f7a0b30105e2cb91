[package]
name = "rendering_engine"
version = "0.1.0"
edition = "2021"
publish = false

[dependencies]
bytemuck = { version = "1", features = ["derive"] }
env_logger = { version = "*", default-features = false }
fastnoise-lite = "*"
glam = { version = "*", features = ["bytemuck"] }
glow = "*"
glutin = { version = "*", default-features = false, features = ["egl", "glx", "x11"] }
glutin-winit = { version = "*", default-features = false, features = ["egl", "glx", "x11"] }
include_dir = "*"
log = "*"
raw-window-handle = "*"
serde = { version = "1", features = ["derive"] }
serde_json = "1"
winit = { version = "*", default-features = false, features = ["rwh_06", "x11"] }
