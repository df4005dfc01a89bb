[package]
name = "cpid"
version = "0.1.0"
edition = "2021"
publish = false

[dependencies]
anyhow = "1"
clap = { version = "4", features = ["derive"] }
regex = "1"
serde = { version = "1", features = ["derive"] }
serde_json = "1"
sled = "0.34"
tree-sitter = "0.20"
walkdir = "2"
xdg = "2"
zip = { version = "0.6", default-features = false }
