[package]
name = "magic_set"
version = "0.1.0"
edition = "2021"
publish = false

[dependencies]
rand = "0.8"
bevy = { version = "0.8", default-features = false }
bevy_ecs_tilemap = "0.8"
iyes_loopless = "0.8"
