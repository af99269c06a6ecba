[package]
name = "ghqrs"
version = "0.0.1"
edition = "2021"
publish = false

[dependencies]
url = "2"
walkdir = "2"
clap = "2"
