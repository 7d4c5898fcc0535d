[package]
name = "identicon"
version = "0.3.0"
edition = "2021"
publish = false

[dependencies]
image = { version = "0.25", default-features = false, features = ["png"] }
md-5 = "0.10"
clap = { version = "4.5", features = ["derive"] }
anyhow = "1"
