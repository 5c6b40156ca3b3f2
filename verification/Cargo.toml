[package]
name = "r1cs_builder"
version = "0.1.0"
edition = "2021"
publish = false

[dependencies]
modular_math = "=0.1.6"
primitive-types = "=0.12.2"
