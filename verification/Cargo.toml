[package]
name = "weather_tiles"
version = "0.1.0"
edition = "2021"
publish = false

[dependencies]
flate2 = "*"
image = "*"
rocket = "0.5"
threadpool = "*"
