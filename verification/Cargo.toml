[package]
name = "bluebat"
version = "0.2.5"
edition = "2021"
publish = false

[dependencies]
logos = "0.12"
