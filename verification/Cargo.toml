[package]
name = "speculo"
version = "0.2.1"
edition = "2021"
publish = false

[dependencies]
clap = "*"
