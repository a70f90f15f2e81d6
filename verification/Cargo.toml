[package]
name = "cribbage"
version = "0.1.0"
edition = "2021"
publish = false

[dependencies]
rand = "0.9"

[dev-dependencies]
itertools = "0.14"
