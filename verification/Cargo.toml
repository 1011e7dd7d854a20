[package]
name = "packard"
version = "0.1.0"
edition = "2021"
publish = false

[dependencies]
serde_yaml = "*"
walkdir = "*"
chrono = "*"
