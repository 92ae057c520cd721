[package]
name = "octothorpe"
version = "0.1.0"
edition = "2021"
publish = false

[dependencies]
jack = "=0.8.3"
jack-sys = "=0.2.2"
