[package]
name = "rocket_csrf"
version = "0.1.0"
edition = "2021"
publish = false

[dependencies]
data-encoding = "2"
ring = "0.17"
rocket = "0.5"
time = "0.3"
