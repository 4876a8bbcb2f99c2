[package]
name = "cli_helper"
version = "0.1.0"
edition = "2021"
publish = false

[dependencies]
proc-macro2 = "*"
quote = "*"
simply_colored = "*"
ts-rust-helper = "*"

[dev-dependencies]
convert_case = "*"
regex = "*"
