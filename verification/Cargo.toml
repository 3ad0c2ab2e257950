[package]
name = "depends"
version = "0.1.0"
edition = "2021"
publish = false

[dependencies]
which = "*"
anyhow = "*"
clap = { version = "*", features = ["derive"] }
prettytable-rs = "*"
thiserror = "*"
walkdir = "*"
