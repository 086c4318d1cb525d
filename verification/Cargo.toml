[package]
name = "symkeeper"
version = "0.1.0"
edition = "2021"
publish = false

[dependencies]
shellexpand = "*"
clap = { version = "*", features = ["derive"] }
serde = { version = "*", features = ["derive"] }
toml = "*"
