[package]
name = "game_features"
version = "0.1.0"
edition = "2021"
publish = false

[dependencies]
partial_function = "*"
rand = "0.9"
serde = { version = "1", features = ["derive"] }
derive-new = "*"
derive_builder = "*"
derivative = "*"
