[package]
name = "rlwe"
version = "0.1.0"
edition = "2021"
publish = false

[dependencies]
generic-array = "0.14"
num-bigint = "0.4"
num-traits = "0.2"
typenum = "1"

[dev-dependencies]
rand = "0.8"
