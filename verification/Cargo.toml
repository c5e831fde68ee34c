[package]
name = "wirecheck"
version = "0.1.0"
edition = "2021"
publish = false

[dependencies]
buf-list = "1"
bytes = "1"
memchr = "2"
sha2 = "0.10"
url = "2"
