[package]
name = "islands"
version = "0.1.0"
edition = "2021"
publish = false

[dependencies]
ndarray = "=0.15.6"
ndarray-stats = "=0.5.1"
rand = "0.8"
