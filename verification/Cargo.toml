[package]
name = "spatial_audio"
version = "0.1.0"
edition = "2021"
publish = false

[dependencies]
audionimbus = "=0.16.0"
bevy = { version = "=0.19.1", default-features = false, features = ["std", "async_executor", "bevy_asset", "bevy_camera", "bevy_color", "bevy_light", "bevy_log", "bevy_mesh", "bevy_window", "keyboard", "mouse"] }
bevy_rapier3d = { version = "=0.36.0", default-features = false, features = ["dim3"] }
bevy_seedling = { version = "=0.8.0", default-features = false }
firewheel = { version = "=0.12.1", default-features = false, features = ["std"] }
itertools = "=0.15.0"
