[package]
name = "radio_client"
version = "0.1.0"
edition = "2021"
publish = false

[dependencies]
anyhow = "1"
clap = "2"
crossbeam = "0.8"
lazy_static = "1"
regex = "1"
