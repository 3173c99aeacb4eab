[package]
name = "dot16"
version = "0.1.0"
edition = "2021"
publish = false

[dependencies]
image = { version = "0.25", default-features = false, features = ["png"] }
mlua = { version = "0.10", features = ["lua54", "vendored"] }
pixels = "*"
winit = "0.30"
log = "0.4"
env_logger = "*"
