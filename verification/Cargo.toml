[package]
name = "rust_git"
version = "0.1.0"
edition = "2021"
publish = false

[dependencies]
anyhow = "1"
byteorder = "1"
chrono = "0.4"
clap = { version = "4", features = ["derive"] }
dirs = "5"
flate2 = "1"
hex = "0.4"
rust-ini = "0.21"
sha1 = "0.10"
wildmatch = "2"
