[package]
name = "homelab_networking"
version = "0.1.0"
edition = "2021"
publish = false

[dependencies]
anyhow = "*"
toml = "*"
