[package]
name = "verlet_balls"
version = "0.1.0"
edition = "2021"
publish = false

[dependencies]
nannou = "0.18"
rand = { version = "0.7", features = ["small_rng"] }
