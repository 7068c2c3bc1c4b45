[package]
name = "doopie"
version = "1.0.0"
edition = "2021"
publish = false

[dependencies]
anyhow = "=1.0.104"
clap = { version = "=4.6.7", features = ["cargo"] }
regex = "1"
sha2 = "=0.10.9"
walkdir = "=2.5.0"
