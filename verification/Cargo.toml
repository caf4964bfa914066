[package]
name = "sierra_dec"
version = "0.1.0"
edition = "2021"
publish = false

[dependencies]
cairo-lang-sierra = "*"
clap = { version = "*", features = ["derive"] }
