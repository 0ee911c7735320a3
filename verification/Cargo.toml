[package]
name = "stark_engine"
version = "0.1.0"
edition = "2021"
publish = false

[dependencies]
amcl = "*"
num = "*"
k256 = { version = "*", features = ["ecdsa"] }
