[package]
name = "monkey_vm"
version = "0.1.0"
edition = "2021"
publish = false

[dependencies]
byteorder = "1"
lazy_static = "1"
