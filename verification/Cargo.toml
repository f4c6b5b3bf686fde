[package]
name = "logflat"
version = "0.1.0"
edition = "2021"
publish = false

[dependencies]
anyhow = "*"
flate2 = "*"
tar = "*"
walkdir = "*"
zip = { version = "*", default-features = false, features = ["deflate"] }
