[package]
name = "worldgen"
version = "0.1.0"
edition = "2021"
publish = false

[dependencies]
rand = "0.4"
noise = "0.4"
image = { version = "0.21", default-features = false, features = ["png_codec"] }
array-init = "*"
