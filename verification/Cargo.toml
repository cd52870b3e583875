[package]
name = "chronver"
version = "0.1.0"
edition = "2021"
publish = false

[dependencies]
time = "*"
serde = "*"
