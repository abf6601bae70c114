[package]
name = "sgx_trts"
version = "0.1.0"
edition = "2021"
publish = false

[dependencies]
sgx_types = "*"
