[package]
name = "nusfjord_setup"
version = "0.1.0"
edition = "2021"
publish = false

[dependencies]
clap = "2"
colored = "2"
rand = "0.8"
