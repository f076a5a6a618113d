[package]
name = "secret_math"
version = "0.1.0"
edition = "2021"
publish = false

[dependencies]
ethnum = { version = "=1.5.3", features = ["serde"] }
primitive-types = { version = "=0.12.2", default-features = false }
cosmwasm-std = "=1.5.11"
thiserror = "=1.0.69"
serde = { version = "=1.0.229", features = ["derive"] }
