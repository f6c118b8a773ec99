[package]
name = "pda_db"
version = "0.1.0"
edition = "2021"
publish = false

[dependencies]
anchor-lang = "=1.2.0"
solana-pubkey = { version = "=3.0.0", features = ["curve25519"] }
