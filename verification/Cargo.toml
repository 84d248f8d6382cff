[package]
name = "ambient_ember"
version = "0.1.0"
edition = "2021"
publish = false

[dependencies]
anyhow = "=1.0.104"
data-encoding = "=2.11.1"
toml = "=0.7.8"
serde = { version = "=1.0.229", features = ["derive"] }
glam = "=0.24.2"
indexmap = { version = "=2.14.2", features = ["serde"] }
