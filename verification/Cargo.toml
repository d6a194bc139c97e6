[package]
name = "fireworks"
version = "0.1.0"
edition = "2021"
publish = false

[dependencies]
anyhow = "=1.0.104"
crossterm = "=0.28.1"
pixel_loop = { version = "=0.1.1", default-features = false, features = ["crossterm"] }
