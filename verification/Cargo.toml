[package]
name = "terrain_heightmap"
version = "0.1.0"
edition = "2021"
publish = false

[dependencies]
rand = "0.8"
voronator = "*"
fast_poisson = "*"
