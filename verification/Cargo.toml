[package]
name = "tx_parser"
version = "0.1.0"
edition = "2021"
publish = false

[dependencies]
sha2 = "*"
ripemd = "*"
