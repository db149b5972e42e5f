[package]
name = "waipack"
version = "0.1.0"
edition = "2021"
publish = false

[dependencies]
wai-bindgen-gen-core = "*"
wai-parser = "*"
anyhow = "*"
