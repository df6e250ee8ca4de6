[package]
name = "bsp_scene"
version = "0.1.0"
edition = "2021"
publish = false

[dependencies]
bsp = "*"
itertools = "0.8"
lazy_static = "1"
serde = { version = "1", features = ["derive"] }
