[package]
name = "nixpm"
version = "0.1.0"
edition = "2021"
publish = false

[dependencies]
clap = { version = "*", features = ["derive"] }
fast-strip-ansi = "*"
serde = { version = "*", features = ["derive"] }
serde_json = "*"
shlex = "*"
