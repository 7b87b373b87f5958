[package]
name = "cosmic_zoom"
version = "0.1.0"
edition = "2021"
publish = false

[dependencies]
calloop = "0.14"
keyframe = "1.1"
smithay = { version = "0.7", default-features = false, features = ["desktop", "wayland_frontend"] }
tracing = "0.1"
