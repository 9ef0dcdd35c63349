[package]
name = "compseq"
version = "0.1.0"
edition = "2021"
publish = false

[dependencies]
bio = "*"
clap = { version = "*", features = ["derive"] }
