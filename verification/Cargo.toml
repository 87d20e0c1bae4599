[package]
name = "gbpos"
version = "0.1.0"
edition = "2021"
publish = false

[dependencies]
htmlstream = "*"
csv = "1"
serde = { version = "1", features = ["derive"] }
serde_yaml = "*"
