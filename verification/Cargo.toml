[package]
name = "pad"
version = "0.1.0"
edition = "2021"
publish = false

[dependencies]
clap = { version = "3.2", features = ["derive", "cargo"] }
home = "0.5"
itertools = "0.10"
rev_lines = "0.2"
