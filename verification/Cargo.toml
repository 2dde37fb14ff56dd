[package]
name = "overlord"
version = "0.1.0"
edition = "2021"
publish = false

[dependencies]
bytes = "1"
bincode = "1"
serde = { version = "1", features = ["derive"] }
hex = "0.4"
futures = "0.3"
futures-timer = "3"
async-trait = "0.1"
creep = "*"
