[package]
name = "plonky2_u256"
version = "0.1.0"
edition = "2021"
publish = false

[dependencies]
plonky2 = "=1.1.0"
num-bigint = "=0.4.8"
