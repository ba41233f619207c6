[package]
name = "terra_incognita"
version = "0.1.0"
edition = "2021"
publish = false

[dependencies]
bracket-noise = "*"
bracket-random = "*"
serde = { version = "*", features = ["derive"] }
serde_json = "*"
toml = "*"
