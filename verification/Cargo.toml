[package]
name = "firelang"
version = "0.1.0"
edition = "2021"
publish = false

[dependencies]
unicode-xid = "*"
anyhow = "*"
