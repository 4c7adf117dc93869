[package]
name = "rust_http_server"
version = "0.1.0"
edition = "2021"
publish = false

[dependencies]
url-escape = "0.1"
walkdir = "2"
