[package]
name = "mal_rust"
version = "0.1.0"
edition = "2021"
publish = false

[dependencies]
rustyline = "*"

[dev-dependencies]
regex = "1"
