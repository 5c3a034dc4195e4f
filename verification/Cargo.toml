[package]
name = "nice_expr"
version = "0.1.0"
edition = "2021"
publish = false

[dependencies]
clap = { version = "4", features = ["derive"] }
itertools = "0.10"
logos = "0.12"
parse_int = "*"
peg = "0.8"
snailquote = "0.3"
unicode_reader = "*"
