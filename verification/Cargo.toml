[package]
name = "stingy"
version = "0.1.0"
edition = "2021"
publish = false

[dependencies]
anyhow = "*"
csv = "*"
dirs = "*"
pager = "*"
sqlite = "*"
textwrap = "*"
