[package]
name = "oracle_prices"
version = "0.1.0"
edition = "2021"
publish = false

[dependencies]
alloy = { version = "*", default-features = false, features = ["providers", "provider-http", "rpc-types-eth", "network"] }
comfy-table = { version = "*", default-features = false }
tokio = { version = "*", default-features = false, features = ["rt", "macros"] }
