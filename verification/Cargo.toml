[package]
name = "rmds"
version = "0.1.3"
edition = "2021"
publish = false

[dependencies]
tempfile = "3.27.0"
zip = { version = "8.6.0", default-features = false, features = ["deflate-flate2-zlib-rs"] }
