[package]
name = "apex-core"
version = "0.1.0"
edition = "2021"
publish = false

[dependencies]
crossbeam = "0.8"
crossbeam-skiplist = "0.1"
crypto-bigint = "0.6"
flurry = "0.5"
mimalloc = "0.1"

[dev-dependencies]
rand = "0.9"
