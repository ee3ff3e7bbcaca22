[package]
name = "line_blocks"
version = "0.1.0"
edition = "2021"
publish = false

[dependencies]
walkdir = "=2.5.0"
cli-command = "*"
