[package]
name = "near-store"
version = "0.1.0"
edition = "2021"
publish = false

[dependencies]
actix = "=0.13.5"
borsh = "=0.9.3"
bs58 = "=0.4.0"
byteorder = "=1.5.0"
once_cell = "=1.21.4"
sha2 = "0.10"
tempfile = "=3.27.0"

[dev-dependencies]
rand = "=0.8.8"
