[package]
name = "oneline_eyre"
version = "0.3.0"
edition = "2021"
publish = false

[dependencies]
eyre = "0.6"
