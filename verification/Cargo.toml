[package]
name = "cursebox"
version = "0.1.0"
edition = "2021"
publish = false

[dependencies]
libc = "=0.2.191"
subslice = "=0.2.3"
util = "=0.1.3"
