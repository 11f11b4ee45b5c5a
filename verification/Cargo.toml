[package]
name = "clif"
version = "0.1.0"
edition = "2021"
publish = false

[dependencies]
shellwords = "*"
crossterm = "*"
clap = { version = "*", features = ["derive"] }
