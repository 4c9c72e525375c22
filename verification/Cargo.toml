[package]
name = "battlezips"
version = "0.1.0"
edition = "2021"
publish = false

[dependencies]
plonky2 = "=0.1.4"
plonky2_ecdsa = "=0.1.0"
anyhow = "=1.0.104"
log = "=0.4.34"
num = "=0.4.3"
sha3 = "=0.12.0"
hex = "=0.4.3"
jemallocator = "=0.5.4"
