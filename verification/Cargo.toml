[package]
name = "reconf"
version = "0.1.0"
edition = "2021"
publish = false

[dependencies]
clap = { version = "*", features = ["derive"] }
miette = { version = "*", features = ["fancy"] }
reedline = "*"
syntect = { version = "*", default-features = false, features = ["default-fancy"] }
nu-ansi-term = "*"
serde_json = "*"
