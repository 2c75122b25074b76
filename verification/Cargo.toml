[package]
name = "simple_tools"
version = "0.1.0"
edition = "2021"
publish = false

[dependencies]
dissimilar = "=1.0.11"
regex = "=1.13.1"
rayon = "=1.12.0"
walkdir = "=2.5.0"
