[package]
name = "termframe"
version = "0.1.0"
edition = "2021"
publish = false

[dependencies]
nalgebra = "*"
terminal_size = "*"
