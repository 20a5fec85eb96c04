[package]
name = "ccdiag"
version = "0.1.0"
edition = "2021"
publish = false

[dependencies]
colored = "*"
bat = { version = "*", default-features = false, features = ["regex-fancy"] }
