[package]
name = "hex_minesweeper"
version = "0.1.0"
edition = "2021"
publish = false

[dependencies]
rand = "0.9"
bevy = { version = "0.16", default-features = false, features = ["bevy_asset", "bevy_sprite", "bevy_picking", "bevy_state", "bevy_window"] }
