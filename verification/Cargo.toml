[package]
name = "subshell"
version = "0.1.0"
edition = "2021"
publish = false

[dependencies]
exec = "0.3"
