[package]
name = "cw-lockbox"
version = "0.1.0"
edition = "2021"
publish = false

[dependencies]
cosmwasm-std = "0.14"
cw2 = "0.6"
cw20 = "0.6"
serde = { version = "1", default-features = false, features = ["derive"] }
