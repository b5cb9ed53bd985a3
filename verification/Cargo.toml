[package]
name = "buffer_graphics_lib"
version = "0.1.0"
edition = "2021"
publish = false

[dependencies]
ici-files = "*"
image = "*"
embedded-graphics-core = "*"
noto-sans-mono-bitmap = "*"
