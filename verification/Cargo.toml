[package]
name = "koch_curve"
version = "0.1.0"
edition = "2021"
publish = false

[dependencies]
num = "*"
piston = "*"
piston2d-graphics = "*"
piston2d-opengl_graphics = "*"
pistoncore-glutin_window = "*"
