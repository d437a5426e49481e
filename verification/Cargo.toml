[package]
name = "mini_gui"
version = "0.1.0"
edition = "2021"
publish = false

[dependencies]
ttf-parser = "*"
minifb = "*"
