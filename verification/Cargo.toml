[package]
name = "lumatone_viz"
version = "0.1.0"
edition = "2021"
publish = false

[dependencies]
clap = { version = "*", features = ["derive"] }
eyre = "*"
midir = "*"
