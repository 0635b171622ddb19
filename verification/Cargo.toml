[package]
name = "rustracer"
version = "0.1.0"
edition = "2021"
publish = false

[dependencies]
indicatif = "*"
minifb = "*"
rayon = "*"
uuid = { version = "*", features = ["v4"] }
