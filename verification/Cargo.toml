[package]
name = "level_progression"
version = "0.1.0"
edition = "2021"
publish = false

[dependencies]
bevy = { version = "=0.17.3", default-features = false, features = ["std", "async_executor", "multi_threaded", "bevy_asset", "bevy_color", "bevy_core_pipeline", "bevy_log", "bevy_picking", "bevy_render", "bevy_sprite", "bevy_sprite_render", "bevy_sprite_picking_backend", "bevy_text", "bevy_ui", "bevy_ui_render", "bevy_ui_picking_backend", "bevy_window", "default_font"] }
avian2d = { version = "=0.4.1", default-features = false, features = ["2d", "f32", "parry-f32", "xpbd_joints"] }
bevy_enhanced_input = { version = "=0.19.3" }
bevy_tween = { version = "=0.10.0", default-features = false }
bevy_rand = { version = "=0.12.1", default-features = false, features = ["wyrand", "std"] }
rand = { version = "=0.9.5", default-features = false }
bevy_simple_text_input = { version = "=0.12.0" }
