[package]
name = "constellation"
version = "0.1.0"
edition = "2021"
publish = false

[dependencies]
atty = "=0.2.14"
bincode = "=1.3.3"
futures = "=0.3.34"
nix = { version = "=0.31.3", features = ["process", "signal"] }
once_cell = "=1.21.4"
serde = { version = "=1.0.229", features = ["derive"] }
serde_closure = "=0.3.3"
