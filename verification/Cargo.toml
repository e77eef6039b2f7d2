[package]
name = "knut"
version = "0.1.0"
edition = "2021"
publish = false

[dependencies]
weld = "*"
