[package]
name = "green_tree"
version = "0.1.0"
edition = "2021"
publish = false

[dependencies]
countme = "=3.0.1"

[dev-dependencies]
countme = { version = "=3.0.1", features = ["enable"] }
