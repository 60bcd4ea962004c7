[package]
name = "create_cli"
version = "0.1.0"
edition = "2021"
publish = false

[dependencies]
camino = "*"
clap = { version = "*", features = ["derive"] }
console = "*"
dialoguer = "*"
miette = "*"
thiserror = "*"
tracing = "*"
tracing-subscriber = "*"
