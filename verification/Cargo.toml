[package]
name = "fractal_slicer"
version = "0.1.0"
edition = "2021"

[dependencies]
rayon = "*"
log = "*"
simple_logger = "*"
