[package]
name = "raven_render"
version = "0.1.0"
edition = "2021"
publish = false

[dependencies]
smithay = { version = "=0.7.0", default-features = false, features = ["backend_drm", "renderer_gl"] }
xcursor = "=0.3.11"
libc = "=0.2.191"
cursor-icon = "=1.2.0"
