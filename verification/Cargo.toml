[package]
name = "repotree"
version = "0.1.0"
edition = "2021"
publish = false

[dependencies]
owo-colors = "*"
clap = { version = "*", features = ["derive"] }
git2 = { version = "*", default-features = false }
