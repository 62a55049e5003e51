[package]
name = "ship_shell"
version = "0.1.0"
edition = "2021"
publish = false

[dependencies]
nix = { version = "*", features = ["fs", "process", "signal", "user"] }
anyhow = "*"
home = "*"
reedline = "*"
pyo3 = "*"
