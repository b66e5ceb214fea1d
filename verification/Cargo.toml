[package]
name = "adam_fov_rs"
version = "0.1.0"
edition = "2021"
publish = false

[dependencies]
glam = "=0.30.10"
sark_grids = "=0.7.0"
