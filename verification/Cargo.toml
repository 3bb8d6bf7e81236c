[package]
name = "rawpreview"
version = "0.1.0"
edition = "2021"
publish = false

[dependencies]
memmap2 = "*"
nix = { version = "*", features = ["fs"] }
tokio = { version = "*", features = ["fs", "io-util", "macros", "rt-multi-thread", "sync"] }
clap = { version = "*", features = ["derive"] }
anyhow = "*"
