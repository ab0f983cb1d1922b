[package]
name = "sprite_shape"
version = "0.1.0"
edition = "2021"
publish = false

[dependencies]
image = "*"

[dev-dependencies]
serde_json = "*"
