[package]
name = "la_inst"
version = "0.1.0"
edition = "2021"
publish = false

[dependencies]
anyhow = "1"
colored = "2"
indicatif = "0.17"
libc = "0.2"
rand = "0.8"
tempfile = "3"
