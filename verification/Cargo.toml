[package]
name = "mixer"
version = "0.1.0"
edition = "2021"
publish = false

[dependencies]
minimp3 = "=0.5.2"
jack = "=0.8.4"
rayon = "=1.12.0"
