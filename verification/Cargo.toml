[package]
name = "capture"
version = "0.1.0"
edition = "2021"
publish = false

[dependencies]
anyhow = "*"
clap = "*"
enigo = "=0.1.3"
image = { version = "*", default-features = false, features = ["png"] }
screenshots = "*"
serde_json = "*"
