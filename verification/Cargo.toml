[package]
name = "c2z"
version = "0.1.0"
edition = "2021"
publish = false

[dependencies]
slug = "*"
emojis = "*"
unicode-segmentation = "*"
time = { version = "*", features = ["formatting", "parsing"] }
walkdir = "*"
anyhow = "*"
clap = { version = "*", features = ["derive"] }
