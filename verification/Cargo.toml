[package]
name = "dots"
version = "0.1.0"
edition = "2021"
publish = false

[dependencies]
anyhow = "1"
clap = "2.33"
dirs = "*"
path-clean = "*"
walkdir = "2"
