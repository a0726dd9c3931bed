[package]
name = "eb"
version = "0.1.0"
edition = "2021"
publish = false

[dependencies]
chrono = "*"
term_size = "*"
clap = { version = "*", features = ["derive"] }
