[package]
name = "godl-crank"
version = "0.1.0"
edition = "2021"
publish = false

[dependencies]
anyhow = "1"
bincode = "1"
clap = { version = "4", features = ["derive", "env"] }
dotenvy = "0.15"
entropy-api = "*"
entropy-types = "*"
solana-program = "2"
solana-sdk = "2"
steel = "*"
tokio = { version = "1", features = ["macros", "rt-multi-thread", "time"] }
