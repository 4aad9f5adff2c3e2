[package]
name = "alti2"
version = "0.1.0"
edition = "2021"
publish = false

[dependencies]
hex = "0.4"
serial = "0.4"
anyhow = "1"
