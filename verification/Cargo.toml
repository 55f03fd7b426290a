[package]
name = "bobs_adventure"
version = "0.1.0"
edition = "2021"
publish = false

[dependencies]
bevy = { version = "=0.10.1", default-features = false, features = ["bevy_asset", "bevy_core_pipeline", "bevy_render", "bevy_sprite", "bevy_text", "bevy_ui"] }
bevy_rapier2d = { version = "=0.21.0", default-features = false, features = ["dim2", "async-collider"] }
bevy_ecs_ldtk = { version = "0.7", default-features = false }
benimator = "=4.1.3"
