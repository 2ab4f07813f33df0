[package]
name = "abnf_kit"
version = "0.1.0"
edition = "2021"
publish = false

[dependencies]
regex = "*"
