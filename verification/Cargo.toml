[package]
name = "bdf"
version = "0.7.0"
edition = "2021"
publish = false

[dependencies]
bit-set = "0.5"
thiserror = "1"
