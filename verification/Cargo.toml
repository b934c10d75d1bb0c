[package]
name = "constant_multiplication"
version = "0.1.0"
edition = "2021"
publish = false

[dependencies]
lz4_flex = "*"
unsigned-varint = "*"
