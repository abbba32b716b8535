[package]
name = "ggc"
version = "0.1.0"
edition = "2021"
publish = false

[dependencies]
anyhow = "=1.0.104"
thiserror = "=1.0.69"
resvg = "*"
