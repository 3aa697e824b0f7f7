[package]
name = "funzzy"
version = "0.1.0"
edition = "2021"
publish = false

[dependencies]
glob = "=0.3.4"
ignore = "0.4"
nix = { version = "=0.29.0", features = ["signal", "process"] }
notify-debouncer-mini = "0.4"
once_cell = "=1.21.4"
serde = { version = "=1.0.229", features = ["derive"] }
serde_json = "=1.0.154"
yaml-rust = "0.4"
