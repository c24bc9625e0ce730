[package]
name = "mkaudiolibrary"
version = "0.1.0"
edition = "2021"
publish = false

[dependencies]
libloading = "*"
no_denormals = "*"
