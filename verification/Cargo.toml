[package]
name = "stag_toolkit"
version = "0.1.0"
edition = "2021"
publish = false

[dependencies]
glam = "0.30"
rayon = "1"
