[package]
name = "notepad_minus_minus"
version = "0.1.0"
edition = "2021"
publish = false

[dependencies]
ropey = "1.6"
itertools = "*"
arboard = "3"
tracing = "0.1"
