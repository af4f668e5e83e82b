[package]
name = "seedling"
version = "0.1.0"
edition = "2021"
publish = false

[dependencies]
smallvec = "=1.16.4"
firewheel = { version = "=0.14.0", default-features = false, features = ["std", "sampler_node", "spatial_basic_node"] }
bevy_ecs = "=0.20.1"
bevy_app = "=0.20.1"
bevy_log = "=0.20.1"
bevy_math = "=0.20.1"
ebur128 = "=0.1.11"
