[package]
name = "emergence_lib"
version = "0.1.0"
edition = "2021"
publish = false

[dependencies]
bevy = { version = "0.9", default-features = false, features = ["bevy_asset", "bevy_core_pipeline", "bevy_render", "bevy_sprite", "bevy_text", "bevy_ui"] }
bevy_ecs_tilemap = { version = "0.9" }
bevy-trait-query = { version = "0.1" }
bevy_utils = { version = "0.9" }
