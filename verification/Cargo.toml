[package]
name = "signal_relay"
version = "0.1.0"
edition = "2021"
publish = false

[dependencies]
nix = { version = "*", features = ["signal", "ptrace", "process", "poll"] }
clap = { version = "*", features = ["derive"] }
thiserror = "*"
