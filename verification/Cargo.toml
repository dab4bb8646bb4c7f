[package]
name = "hex_snake"
version = "0.1.0"
edition = "2021"
publish = false

[dependencies]
bevy = { version = "=0.8.1", default-features = false, features = ["render", "bevy_winit", "png", "x11"] }
bevy_ggrs = "=0.10.0"
ggrs = "=0.9.2"
rand = "=0.8.8"
