[package]
name = "content_directory"
version = "0.1.0"
edition = "2021"
publish = false

[dependencies]
include_dir = "*"
serde = { version = "*", features = ["derive"] }
serde_yaml = "*"
url = "*"
