[package]
name = "soft_rasterizer"
version = "0.1.0"
edition = "2021"

[dependencies]
nalgebra = "*"
fltk = "*"
