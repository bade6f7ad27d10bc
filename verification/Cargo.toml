[package]
name = "pastel"
version = "0.1.0"
edition = "2021"
publish = false

[dependencies]
ansi_term = "=0.12.1"
atty = "=0.2.14"
clap = "=2.34.0"
rand = "=0.7.3"
