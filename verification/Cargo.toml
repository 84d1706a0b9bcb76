[package]
name = "exercises"
version = "0.1.0"
edition = "2021"
publish = false

[dependencies]
num-bigint = "*"
num-traits = "*"

[dev-dependencies]
rand = "0.8"
