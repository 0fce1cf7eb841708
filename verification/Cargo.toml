[package]
name = "indy_vdr"
version = "0.1.0"
edition = "2021"
publish = false

[dependencies]
bs58 = "*"
ursa = { version = "*", default-features = false, features = ["sha2"] }
