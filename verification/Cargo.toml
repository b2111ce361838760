[package]
name = "engine2d"
version = "0.1.0"
edition = "2021"
publish = false

[dependencies]
image = "0.23"
pixels = "0.2"
rodio = "0.13"
winit = "0.24"
winit_input_helper = "0.9"
