[package]
name = "node_modules_remover"
version = "0.1.0"
edition = "2021"
publish = false

[dependencies]
clap = "*"
walkdir = "*"
