[package]
name = "feudle"
version = "0.1.0"
edition = "2021"
publish = false

[dependencies]
laminar = "*"
crossbeam-channel = "*"
resource = "*"
