[package]
name = "ramfs"
version = "0.1.0"
edition = "2021"
publish = false

[dependencies]
spin = "*"
lazy_static = "*"
