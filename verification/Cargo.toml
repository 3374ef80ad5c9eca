[package]
name = "omage"
version = "0.1.0"
edition = "2021"
publish = false

[dependencies]
rusttype = "0.9"
image = { version = "0.24", default-features = false, features = ["png"] }
