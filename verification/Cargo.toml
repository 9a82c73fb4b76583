[package]
name = "voidleo"
version = "0.1.0"
edition = "2021"
publish = false

[dependencies]
chrono = "0.4"
serenity = "0.8"
serde = { version = "1", features = ["derive"] }
serde_json = "1"
ron = "0.6"
lazy_static = "1"
env_logger = "0.7"
log = "0.4"
