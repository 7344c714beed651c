[package]
name = "crate-rename"
version = "0.1.0"
edition = "2021"
publish = false

[dependencies]
toml = "0.5"
structopt = "0.3"
