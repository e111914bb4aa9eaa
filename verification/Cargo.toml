[package]
name = "inf3d"
version = "0.1.0"
edition = "2021"
publish = false

[dependencies]
bevy = { version = "0.18", default-features = false, features = ["bevy_asset", "bevy_camera", "bevy_color", "bevy_core_pipeline", "bevy_gizmos", "bevy_light", "bevy_log", "bevy_mesh", "bevy_pbr", "bevy_post_process", "bevy_render", "bevy_state", "bevy_text", "bevy_ui", "bevy_window", "std"] }
noise = "0.9"
rand = "0.9"
ron = "0.12"
serde = { version = "1", features = ["derive"] }
tracing = "0.1"

[dev-dependencies]
dot_vox = "5"
