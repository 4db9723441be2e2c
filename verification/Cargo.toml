[package]
name = "winsaf"
version = "0.1.0"
edition = "2021"
publish = false

[dependencies]
cosmwasm-std = { version = "2.2", features = ["cosmwasm_2_1"] }
cosmwasm-schema = "2.2"
cw2 = "2.0"
cw-storage-plus = "2.0"
cw-utils = "2.0"
sha2 = "0.10"
thiserror = "1"
