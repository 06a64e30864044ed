[package]
name = "raytracer"
version = "0.1.0"
edition = "2021"
publish = false

[dependencies]
anyhow = "1"
crossbeam = "0.8"
eframe = "0.12"
env_logger = "0.9"
image = "0.23"
rand = "0.8"
rayon = "1"
