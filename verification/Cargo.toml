[package]
name = "shtola"
version = "0.1.0"
edition = "2021"
publish = false

[dependencies]
comrak = { version = "*", default-features = false }
globset = "*"
serde_json = "*"
serde_yaml = "*"
walkdir = "*"
pathdiff = "*"
