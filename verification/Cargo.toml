[package]
name = "bitcoin_codec"
version = "0.1.0"
edition = "2021"

[dependencies]
hex = "0.4"
serde = { version = "1", features = ["derive"] }
