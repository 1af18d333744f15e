[package]
name = "physics"
version = "0.1.0"
edition = "2021"
publish = false

[dependencies]
bevy = { version = "0.16", default-features = false, features = ["bevy_asset", "bevy_color", "bevy_core_pipeline", "bevy_dev_tools", "bevy_render", "bevy_sprite", "bevy_text", "bevy_window", "std"] }
i_triangle = "=0.50.1"
nalgebra = "=0.33.3"
rand = "=0.9.5"
