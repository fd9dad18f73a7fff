[package]
name = "anthem"
version = "0.3.0"
edition = "2021"
publish = false

[dependencies]
foliage = "=0.1.0"
