[package]
name = "pycsort"
version = "0.1.0"
edition = "2021"
publish = false

[dependencies]
chrono = "0.4"
glob = "0.3"
home = "0.5"
iced = "0.4"
rfd = "*"
