[package]
name = "arc_reader"
version = "0.1.0"
edition = "2021"
publish = false

[dependencies]
indexmap = "*"
zstd = "*"
hash40 = "*"
clap = { version = "*", features = ["derive"] }
