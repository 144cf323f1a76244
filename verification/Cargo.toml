[package]
name = "sudachi"
version = "0.1.0"
edition = "2021"
publish = false

[dependencies]
csv = "1"
indexmap = "2"
memmap2 = "0.9"
