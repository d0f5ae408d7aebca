[package]
name = "typstyle"
version = "0.1.0"
edition = "2021"
publish = false

[dependencies]
unicode-width = "*"
typst-syntax = "*"
toml = "*"
walkdir = "*"
anyhow = "*"
log = "*"
thiserror = "*"
itertools = "*"
