[package]
name = "slideshow"
version = "0.1.0"
edition = "2021"
publish = false

[dependencies]
regex = "1"
walkdir = "2"
image = { version = "0.25", default-features = false, features = ["png", "jpeg"] }
rodio = { version = "0.20", default-features = false, features = ["mp3"] }
