[package]
name = "crustagent"
version = "0.1.0"
edition = "2021"
publish = false

[dependencies]
cfb = "*"
font8x8 = "*"
fontdue = "*"
fontdb = "*"
swash = "*"
rodio = "*"
winit = "*"
