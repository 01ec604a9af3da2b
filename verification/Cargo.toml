[package]
name = "keyscan"
version = "0.1.0"
edition = "2021"
publish = false

[dependencies]
rppal = "*"
static_assertions = "1.1"
