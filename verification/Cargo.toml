[package]
name = "horust"
version = "0.1.0"
edition = "2021"
publish = false

[dependencies]
crossbeam = "0.8"
log = "0.4"
nix = "0.17"

[dev-dependencies]
humantime = "2"
toml = "0.5"
