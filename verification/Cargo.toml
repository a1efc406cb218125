[package]
name = "rounds_core"
version = "0.1.0"
edition = "2021"
publish = false

[dependencies]
rand = "=0.9.5"
serde = { version = "=1.0.229", features = ["derive"] }
toml = "=0.9.8"
arrayvec = "=0.7.8"
bevy = { version = "=0.17.3", default-features = false, features = ["std"] }
bevy_rapier2d = { version = "=0.32.0", default-features = false, features = ["dim2"] }
parry2d = "=0.25.3"
