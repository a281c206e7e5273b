[package]
name = "wayland_overlay_media_viewer"
version = "0.1.0"
edition = "2021"
publish = false

[dependencies]
rand = "=0.10.3"
bevy_rand = { version = "=0.15.2", features = ["wyrand"] }
image = { version = "0.25", default-features = false, features = ["gif", "webp"] }
