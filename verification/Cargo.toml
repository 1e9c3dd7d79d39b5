[package]
name = "ink"
version = "0.1.0"
edition = "2021"
publish = false

[dependencies]
unicode-segmentation = "1"
unicode-width = "*"
crossterm = "*"
arboard = { version = "*", default-features = false }
rhai = "1"
serde_json = "1"
dirs = "*"
clap = { version = "4", features = ["derive"] }
