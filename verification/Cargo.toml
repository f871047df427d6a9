[package]
name = "btm"
version = "0.1.0"
edition = "2021"
publish = false

[dependencies]
nix = { version = "*", features = ["fs"] }
clap = { version = "*", features = ["derive"] }
ruc = { version = "*", features = ["cmd"] }
