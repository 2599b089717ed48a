[package]
name = "nomboids"
version = "0.1.0"
edition = "2021"
publish = false

[dependencies]
bevy = { version = "0.16", default-features = false, features = ["std", "bevy_asset", "bevy_core_pipeline", "bevy_render", "bevy_sprite", "bevy_window"] }
bevy_spatial = { version = "0.11", default-features = false, features = ["kdtree"] }
rand = "0.9"
