[package]
name = "rowindex"
version = "0.1.0"
edition = "2021"
publish = false

[dependencies]
arrow = "*"
parquet = { version = "*", default-features = false, features = ["arrow"] }
memchr = "*"
bytes = "*"
