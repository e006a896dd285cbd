[package]
name = "last_hope"
version = "0.1.0"
edition = "2021"
publish = false

[dependencies]
pathfinding = "4"
rand = "0.8"
ggez = { version = "0.9", default-features = false }
libm = "0.2"
nalgebra = "0.32"
num = "0.4"
