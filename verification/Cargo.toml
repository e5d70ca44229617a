[package]
name = "forge"
version = "0.1.0"
edition = "2021"
publish = false

[dependencies]
clap = "*"
colored = "*"
pest = "*"
pest_derive = "*"
