[package]
name = "cirrus"
version = "0.1.0"
edition = "2021"
publish = false

[dependencies]
rv-asm = "0.2.1"
disarm64 = "*"
sha2 = "0.11"
digest = "0.11"
rand_core = "0.10"
spin = "*"
portal-pc-asm-common = "0.1.1"
