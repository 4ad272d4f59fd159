[package]
name = "spindownd"
version = "0.1.0"
edition = "2021"
publish = false

[dependencies]
nc = "*"
os_str_bytes = "*"
