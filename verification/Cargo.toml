[package]
name = "cuberithm"
version = "0.1.0"
edition = "2021"
publish = false

[dependencies]
bnum = "0.12"
clap = { version = "4", features = ["derive"] }
thiserror = "1"
