[package]
name = "etf2json"
version = "0.1.0"
edition = "2021"
publish = false

[dependencies]
base64 = "0.13"
byteorder = "1"
hex = "0.4"
num-bigint = "0.4"
