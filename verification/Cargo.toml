[package]
name = "minihttp"
version = "0.1.0"
edition = "2021"
publish = false

[dependencies]
regex = "*"
serde = { version = "*", features = ["derive"] }
serde_derive = "*"
serde_json = "*"
