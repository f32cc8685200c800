[package]
name = "verlet_tail"
version = "0.1.0"
edition = "2021"
publish = false

[dependencies]
avian3d = { version = "0.4", default-features = false, features = ["3d", "f32", "parry-f32"] }
bevy = { version = "0.17", default-features = false, features = ["std", "bevy_log", "bevy_state"] }
bevy_prng = { version = "0.12", features = ["rand_chacha"] }
bevy_rand = "0.12"
rand = "0.9"
