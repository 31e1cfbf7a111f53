[package]
name = "mikino"
version = "0.1.0"
edition = "2021"
publish = false

[dependencies]
mikino_api = "*"
clap = { version = "3", features = ["cargo"] }
ansi_term = "0.12"
atty = "0.2"
