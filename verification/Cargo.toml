[package]
name = "gs_rust"
version = "0.1.0"
edition = "2021"
publish = false

[dependencies]
half = "2"
nalgebra-glm = "*"
bytes = "1"
rkyv = "0.8"
serde_json = "1"
