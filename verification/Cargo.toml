[package]
name = "recproofs"
version = "0.1.0"
edition = "2021"
publish = false

[dependencies]
anyhow = "=1.0.104"
enumflags2 = "=0.7.12"
iter_fixed = "=0.4.0"
itertools = "=0.12.1"
plonky2 = "=0.2.2"
