[package]
name = "folder_favorite"
version = "0.1.0"
edition = "2021"
publish = false

[dependencies]
arboard = "*"
clap = { version = "*", features = ["derive"] }
colored = "*"
dirs = "*"
env_logger = "*"
log = "*"
shellexpand = "*"
