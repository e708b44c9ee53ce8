[package]
name = "rasterizer"
version = "0.1.0"
edition = "2021"
publish = false

[dependencies]
nalgebra-glm = "0.18"
rand = "0.8"
tobj = "4"
