[package]
name = "tichu"
version = "0.1.0"
edition = "2021"
publish = false

[dependencies]
enum-iterator = "2"
itertools = "0.13"
rand = "0.8"
rand_chacha = "0.3"
