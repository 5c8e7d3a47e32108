[package]
name = "entab"
version = "0.2.0"
edition = "2021"
publish = false

[dependencies]
memchr = "2"
clap = { version = "=3.0.0-beta.2", default-features = false, features = ["std", "cargo"] }
memmap = "0.7"
