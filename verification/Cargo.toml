[package]
name = "doc_image_extractor"
version = "0.1.0"
edition = "2021"
publish = false

[dependencies]
anyhow = "=1.0.104"
clap = { version = "=4.6.7", features = ["derive"] }
epub = "=2.1.5"
walkdir = "=2.5.0"
zip = { version = "=3.0.0", default-features = false, features = ["deflate"] }
