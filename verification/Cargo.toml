[package]
name = "cook"
version = "0.1.0"
edition = "2021"
publish = false

[dependencies]
clap = "=2.34.0"
termion = "=1.5.6"

[dev-dependencies]
toml = "=0.5.11"
