[package]
name = "typst_bake"
version = "0.1.0"
edition = "2021"
publish = false

[dependencies]
blake3 = "*"
zstd = "*"
toml = "*"
typst-syntax = "*"
ureq = { version = "3", default-features = false }
fd-lock = "*"
flate2 = "*"
binstall-tar = "*"
walkdir = "2"
dirs = "*"
