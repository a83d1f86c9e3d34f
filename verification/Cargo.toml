[package]
name = "large_file_scanner"
version = "0.1.0"
edition = "2021"
publish = false

[dependencies]
csv = "*"
humansize = "*"
rayon = "*"
walkdir = "*"
