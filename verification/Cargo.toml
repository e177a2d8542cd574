[package]
name = "erd"
version = "0.1.0"
edition = "2021"
publish = false

[dependencies]
anyhow = "*"
itertools = "*"
postgres = "*"
serde = { version = "*", features = ["derive"] }
structopt = "*"
textwrap = "*"
