[package]
name = "bcrypt_pbkdf"
version = "0.1.0"
edition = "2021"
publish = false

[dependencies]
blowfish = { version = "=0.9.1", features = ["bcrypt"] }
sha2 = "=0.9.9"
byteorder = "=1.5.0"
