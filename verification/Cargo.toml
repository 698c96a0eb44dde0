[package]
name = "glyph_compositor"
version = "0.1.0"
edition = "2021"
publish = false

[dependencies]
swash = "*"
image = { version = "*", default-features = false, features = ["png"] }
