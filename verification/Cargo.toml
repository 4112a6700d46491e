[package]
name = "amigo"
version = "0.1.0"
edition = "2021"
publish = false

[dependencies]
clap = "*"
flame = "*"
image = { version = "*", default-features = false, features = ["png", "jpeg"] }
