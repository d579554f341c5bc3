[package]
name = "tant"
version = "0.1.0"
edition = "2021"
publish = false

[dependencies]
vt100 = "*"
portable-pty = "*"
nix = { version = "*", features = ["fs"] }
chrono = "*"
hostname = "*"

[dev-dependencies]
serde_json = "*"
