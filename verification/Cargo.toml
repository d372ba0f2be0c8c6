[package]
name = "univer"
version = "0.1.0"
edition = "2021"
publish = false

[dependencies]
antex = "*"
cargo_metadata = "*"
clap = "*"
toml = "*"
