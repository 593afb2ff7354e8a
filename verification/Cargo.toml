[package]
name = "pyx_rusterizer"
version = "0.1.0"
edition = "2021"
publish = false

[dependencies]
glam = "*"
serde = { version = "*", features = ["derive"] }
serde_json = "*"
