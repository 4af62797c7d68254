[package]
name = "rusty_vision"
version = "0.1.0"
edition = "2021"
publish = false

[dependencies]
opencv = "*"
structopt = "0.3"
