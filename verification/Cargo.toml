[package]
name = "star_catalog"
version = "0.1.0"
edition = "2021"
publish = false

[dependencies]
csv = "0.15"
kiss3d = "0.35"
nalgebra = "0.30"
stopwatch = "0.0.7"
