[package]
name = "caretaker"
version = "0.1.0"
edition = "2021"
publish = false

[dependencies]
glob = "*"
notify = "*"
crossbeam-channel = "*"
parking_lot = "*"
serde = { version = "*", features = ["derive"] }
toml = "*"
clap = { version = "*", features = ["derive"] }
ansi_term = "*"
