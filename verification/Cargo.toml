[package]
name = "chord_fusion"
version = "0.1.0"
edition = "2021"
publish = false

[dependencies]
itertools = "=0.10.5"
smallvec = "=1.16.4"
rand = "=0.8.8"
bevy = { version = "=0.8.1", default-features = false, features = ["bevy_asset", "bevy_winit", "render", "x11"] }
bevy_prototype_lyon = "=0.6.0"
bevy_rapier2d = "=0.16.2"
bevy_tweening = "=0.5.0"
console_error_panic_hook = "=0.1.7"
