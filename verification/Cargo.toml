[package]
name = "dungeon_cards"
version = "0.1.0"
edition = "2021"
publish = false

[dependencies]
turbo-genesis-sdk = "*"
serde = { version = "1", features = ["derive"] }
borsh = { version = "1", features = ["derive"] }
bitflags = "1"
