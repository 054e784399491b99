[package]
name = "nanopdf"
version = "0.1.0"
edition = "2021"
publish = false

[dependencies]
base64 = "0.22"
bytes = "1"
md-5 = "0.10"
