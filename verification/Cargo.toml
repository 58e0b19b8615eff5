[package]
name = "focusd"
version = "0.1.0"
edition = "2021"
publish = false

[dependencies]
clap = { version = "4", features = ["derive"] }
colored = "2"
nix = "0.26"
regex = "1"
rmp-serde = "1"
serde = { version = "1", features = ["derive"] }
shellexpand = "3"
sysinfo = "0.29"
toml = "0.8"
