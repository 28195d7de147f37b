[package]
name = "spawn"
version = "0.1.0"
edition = "2021"
publish = false

[dependencies]
caps = "=0.5.6"
dashmap = "=6.2.1"
log = "=0.4.35"
nix = { version = "=0.31.3", features = ["fs", "process", "signal", "user"] }
parking_lot = "=0.13.0"
signal-hook = "=0.4.6"
thiserror = "=2.0.21"
