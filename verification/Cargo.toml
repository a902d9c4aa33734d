[package]
name = "pixie_stitch"
version = "0.1.0"
edition = "2021"
publish = false

[dependencies]
gif = "*"
png = "*"
rayon = "*"
