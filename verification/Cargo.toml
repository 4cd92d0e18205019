[package]
name = "flashprog"
version = "0.1.0"
edition = "2021"
publish = false

[dependencies]
anyhow = "*"
clap = { version = "*", features = ["derive"] }
indicatif = "*"
rppal = "*"
spin_sleep = "*"
