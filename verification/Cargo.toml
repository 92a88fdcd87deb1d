[package]
name = "jsbf"
version = "0.1.0"
edition = "2021"
publish = false

[dependencies]
anyhow = "1"
boa_ast = "0.20"
boa_interner = "0.20"
boa_parser = "0.20"
