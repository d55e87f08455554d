[package]
name = "red_sand"
version = "0.1.0"
edition = "2021"
publish = false

[dependencies]
rand = "0.8"
image = "0.24"
serde = { version = "1", features = ["derive"] }
serde_yaml = "0.9"
