[package]
name = "miru"
version = "0.1.0"
edition = "2021"
publish = false

[dependencies]
comrak = { version = "*", default-features = false }
clap = { version = "4", features = ["derive"] }
anyhow = "1"
