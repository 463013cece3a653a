[package]
name = "julia3d"
version = "0.1.0"
edition = "2021"
publish = false

[dependencies]
nalgebra = "*"
bmp = "*"
glfw = "*"
gl = "*"
