[package]
name = "obj_mesh"
version = "0.1.0"
edition = "2021"
publish = false

[dependencies]
glam = "*"
anyhow = "=1.0.104"
