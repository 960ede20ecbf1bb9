[package]
name = "wimlib_kit"
version = "0.1.0"
edition = "2021"
publish = false

[dependencies]
clap = { version = "4", features = ["derive"] }
indicatif = "0.17"
libloading = "0.8"
thiserror = "1"
