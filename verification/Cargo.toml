[package]
name = "rgent"
version = "0.1.0"
edition = "2021"

[dependencies]
anyhow = "*"
clap = { version = "*", features = ["derive"] }
pathdiff = "*"
pulldown-cmark = "*"
serde = { version = "*", features = ["derive"] }
toml = "*"
walkdir = "*"
