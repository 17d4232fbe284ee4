[package]
name = "purezen"
version = "0.1.0"
edition = "2021"
publish = false

[dependencies]
generic-array = "0.13"
heapless = "0.5"
typenum = "1"
