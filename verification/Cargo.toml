[package]
name = "std_reference"
version = "0.1.0"
edition = "2021"
publish = false

[dependencies]
cosmwasm-std = "1.5"
cw-storage-plus = "1.2"
cosmwasm-storage = "1.5"
cw-controllers = "1.1"
cosmwasm-schema = "1.5"
schemars = "0.8"
serde = { version = "1.0", default-features = false, features = ["derive"] }
