[package]
name = "cligen"
version = "0.1.0"
edition = "2021"
publish = false

[dependencies]
chic = "*"
clap = { version = "*", features = ["derive"] }
