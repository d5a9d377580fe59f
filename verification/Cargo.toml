[package]
name = "svg_diff"
version = "0.1.0"
edition = "2021"
publish = false

[dependencies]
svgtypes = "=0.8.2"
getrandom = "=0.2.17"
svg = "*"
serde = { version = "*", features = ["derive"] }
serde_json = "*"
