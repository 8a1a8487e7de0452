[package]
name = "shell_traps"
version = "0.1.0"
edition = "2021"
publish = false

[dependencies]
itertools = "0.14"
nix = { version = "0.30", features = ["process", "signal"] }
serde = { version = "1", features = ["derive"] }
tokio = { version = "1", features = ["signal"] }
