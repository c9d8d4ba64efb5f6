[package]
name = "rusty_money"
version = "0.1.0"
edition = "2021"
publish = false

[dependencies]
rust_decimal = "1"
serde = { version = "1", features = ["derive"] }
