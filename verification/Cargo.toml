[package]
name = "toke"
version = "0.1.0"
edition = "2021"
publish = false

[dependencies]
tiny-keccak = { version = "2", features = ["keccak"] }
hex = "0.4"
dialoguer = "0.11"
clap = { version = "4", features = ["derive"] }
