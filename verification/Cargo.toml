[package]
name = "mf66"
version = "0.1.0"
edition = "2021"
publish = false

[dependencies]
anyhow = "=1.0.104"
libc = "=0.2.191"
png = "=0.17.16"
