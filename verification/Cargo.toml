[package]
name = "robusta"
version = "0.1.0"
edition = "2021"
publish = false

[dependencies]
anyhow = "1"
zip = { version = "*", default-features = false, features = ["deflate"] }
