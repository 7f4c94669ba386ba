[package]
name = "textdraw"
version = "0.1.0"
edition = "2021"
publish = false

[dependencies]
regex = "1"
owo-colors = "4"
color-art = "*"
pyo3 = "*"
