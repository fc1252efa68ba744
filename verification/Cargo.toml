[package]
name = "jot"
version = "0.1.0"
edition = "2021"
publish = false

[dependencies]
clap = { version = "*", features = ["derive"] }
serde = { version = "*", features = ["derive"] }
toml = "*"
fs_extra = "*"
dunce = "*"
directories = "*"
walkdir = "*"
