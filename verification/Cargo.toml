[package]
name = "pngme"
version = "0.1.0"
edition = "2021"
publish = false

[dependencies]
crc = "3"
clap = { version = "3.2", features = ["derive"] }
colored = "2"
thiserror = "1"
