[package]
name = "nx_archive"
version = "0.1.0"
edition = "2021"
publish = false

[dependencies]
aes = "0.8"
cipher = "0.4"
ctr = "0.9"
ecb = "0.1"
xts-mode = "0.5"
dirs = "5"
