[package]
name = "elemtok"
version = "0.1.0"
edition = "2021"
publish = false

[dependencies]
getrandom = "0.2"
