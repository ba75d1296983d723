[package]
name = "buffer_manager"
version = "0.1.0"
edition = "2021"
publish = false

[dependencies]
lazy_static = "1.5"
rand = "0.8"
