[package]
name = "brutal_csv"
version = "0.1.0"
edition = "2021"
publish = false

[dependencies]
clap = { version = "*", features = ["derive"] }
clio = { version = "*", features = ["clap-parse"] }
indicatif = "*"
