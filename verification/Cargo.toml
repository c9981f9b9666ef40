[package]
name = "observed_timers"
version = "0.1.0"
edition = "2021"
publish = false

[dependencies]
indexmap = { version = "2", features = ["std"] }
bevy_ecs = "0.15"
bevy_time = "0.15"
bevy_app = "0.15"
