[package]
name = "meadow"
version = "0.1.0"
edition = "2021"
publish = false

[dependencies]
rand = "*"
num = "*"
cgmath = "*"
glium = "*"
glutin = "*"
image = "*"
