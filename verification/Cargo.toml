[package]
name = "norm"
version = "0.1.0"
edition = "2021"
publish = false

[dependencies]
clap = "2"
colored = "1"
page_size = "0.4"
rayon = "1"
