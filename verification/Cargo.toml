[package]
name = "sheru"
version = "0.1.0"
edition = "2021"
publish = false

[dependencies]
atty = "*"
is_executable = "*"
