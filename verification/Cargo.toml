[package]
name = "spart"
version = "0.1.0"
edition = "2021"
publish = false

[dependencies]
merde = { version = "*", features = ["json"] }
