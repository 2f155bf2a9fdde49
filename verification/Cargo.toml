[package]
name = "nbody"
version = "0.1.0"
edition = "2021"
publish = false

[dependencies]
macroquad = "*"
pretty_env_logger = "*"
