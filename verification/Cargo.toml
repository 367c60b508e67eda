[package]
name = "qsc_render"
version = "0.1.0"
edition = "2021"
publish = false

[dependencies]
ash = "0.38"
ash-window = "0.13"
nalgebra = "0.33"
winit = "0.30"
