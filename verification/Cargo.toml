[package]
name = "gomoku"
version = "0.1.0"
edition = "2021"
publish = false

[dependencies]
bitvec = "=1.0.1"
rand = "0.8"
clap = { version = "3.2", features = ["derive"] }
