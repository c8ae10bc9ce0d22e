[package]
name = "reedline_repl_rs"
version = "0.1.0"
edition = "2021"
publish = false

[dependencies]
clap = "4"
reedline = "*"
nu-ansi-term = "*"
crossterm = "*"
