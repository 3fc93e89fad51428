[package]
name = "vr_contact"
version = "0.1.0"
edition = "2021"
publish = false

[dependencies]
bevy = { version = "=0.16.1", default-features = false, features = ["std", "bevy_asset", "bevy_color", "bevy_core_pipeline", "bevy_gizmos", "bevy_gltf", "bevy_pbr", "bevy_render", "bevy_scene", "bevy_window"] }
bevy_mod_openxr = { version = "0.3", default-features = false }
bevy_mod_xr = { version = "0.3", default-features = false }
bevy_xr_utils = { version = "0.3", default-features = false }
openxr = { version = "0.19", default-features = false }
serde = { version = "=1.0.229", features = ["derive"] }
serde_json = "=1.0.154"
