[package]
name = "mymemo"
version = "0.1.0"
edition = "2021"
publish = false

[dependencies]
dirs = "*"
uuid = { version = "*", features = ["v4"] }
