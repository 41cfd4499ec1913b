[package]
name = "rufus"
version = "0.1.0"
edition = "2021"
publish = false

[dependencies]
nix = { version = "0.29", features = ["ptrace", "signal", "process"] }
rand = "0.8"
clap = "2"
linux-personality = "1.0"
