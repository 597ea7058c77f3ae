[package]
name = "linkit"
version = "0.1.0"
edition = "2021"
publish = false

[dependencies]
anyhow = "1"
clap = { version = "4", features = ["derive"] }
console = "*"
directories = "*"
dunce = "1"
fs_extra = "1"
serde = { version = "1", features = ["derive"] }
shellexpand = "3"
symlink = "0.1"
toml = "*"
