[package]
name = "nomfun"
version = "0.1.0"
edition = "2021"
publish = false

[dependencies]
bencher = "0.1"
fnv = "1.0"
