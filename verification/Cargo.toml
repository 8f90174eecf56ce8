[package]
name = "satoshi_suite"
version = "0.1.0"
edition = "2021"
publish = false

[dependencies]
bitcoin = { version = "0.32", features = ["rand-std"] }
ordinals = "*"
bitcoincore-rpc = "0.19"
serde = { version = "1", features = ["derive"] }
serde_json = "1"
ciborium = "0.2"
clap = { version = "4", features = ["derive"] }
hex = "0.4"
