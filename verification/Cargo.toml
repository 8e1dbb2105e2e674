[package]
name = "shui"
version = "0.1.0"
edition = "2021"
publish = false

[dependencies]
glium = "0.27"
nalgebra = "0.21"
rusttype = "0.2"
num = "0.1"
asprim = "0.1"
unicode-normalization = "0.1"
