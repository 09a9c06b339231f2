[package]
name = "tengok"
version = "0.1.0"
edition = "2021"
publish = false

[dependencies]
crossbeam-channel = "*"
crossterm = "*"
humansize = "*"
ignore = "*"
owo-colors = "*"
unicode-width = "*"
