[package]
name = "winding_tree"
version = "0.1.0"
edition = "2021"
publish = false

[dependencies]
kurbo = "*"
svg = "*"
clap = { version = "*", features = ["derive"] }
