[package]
name = "linkmap"
version = "0.1.0"
edition = "2021"

[dependencies]
anyhow = "=1.0.104"
symbolic-demangle = { version = "=13.9.0", default-features = false, features = ["rust"] }
