[package]
name = "shadow_rays"
version = "0.1.0"
edition = "2021"
publish = false

[dependencies]
pixels = "0.15"
winit = { version = "0.30", default-features = false, features = ["rwh_06", "x11"] }
