[package]
name = "ringkv"
version = "0.1.0"
edition = "2021"
publish = false

[dependencies]
slab = "0.4"
io-uring = "*"
libc = "0.2"
anyhow = "1"
