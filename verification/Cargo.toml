[package]
name = "crustty"
version = "0.1.0"
edition = "2021"
publish = false

[dependencies]
glium = "0.32"
glutin = "0.29"
nix = "0.23"
rusttype = { version = "0.9", features = ["gpu_cache"] }
