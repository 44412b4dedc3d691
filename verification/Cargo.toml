[package]
name = "kakashi"
version = "0.1.0"
edition = "2021"
publish = false

[dependencies]
freedesktop-file-parser = "*"
anyhow = "*"
async-trait = "*"
rand = "0.9"
turso = "*"
