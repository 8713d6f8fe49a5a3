[package]
name = "simple_cbf"
version = "0.1.0"
edition = "2021"
publish = false

[dependencies]
anyhow = "*"
bacon-sci = "*"
clap = { version = "*", features = ["derive"] }
