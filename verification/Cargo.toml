[package]
name = "hexyl"
version = "0.1.0"
edition = "2021"
publish = false

[dependencies]
owo-colors = "3"
clap = "2"
atty = "0.2"
