[package]
name = "leo_debugger"
version = "0.1.0"
edition = "2021"
publish = false

[dependencies]
aleo-std = "=1.0.4"
anyhow = "=1.0.104"
clap = { version = "=4.6.7", default-features = false, features = ["derive", "std", "help", "usage", "error-context"] }
crossbeam-channel = "=0.5.17"
crossterm = "=0.28.1"
indexmap = { version = "=2.14.2", features = ["serde"] }
rand = "=0.10.3"
ratatui = { version = "=0.29.0", default-features = false, features = ["crossterm"] }
serde = { version = "=1.0.229", features = ["derive"] }
serde_json = "=1.0.154"
snarkvm = { version = "=4.9.1", default-features = false, features = ["circuit", "console", "synthesizer"] }
snarkvm-ledger-block = { version = "=4.9.1", default-features = false }
snarkvm-ledger-store = { version = "=4.9.1", default-features = false }
snarkvm-synthesizer-process = { version = "=4.9.1", default-features = false }
