[package]
name = "myelin_environment"
version = "0.1.0"
edition = "2021"
publish = false

[dependencies]
myelin-geometry = "*"
nphysics2d = "*"
ncollide2d = "*"
nalgebra = "*"
alga = "*"
unordered-pair = "*"
serde = { version = "1", features = ["derive"] }
