[package]
name = "arre_mind_reader"
version = "0.1.0"
edition = "2021"
publish = false

[dependencies]
quick-xml = "*"
rbook = "*"
serde = { version = "*", features = ["derive"] }
ron = "*"
dirs = "*"
