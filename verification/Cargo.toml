[package]
name = "open-authenticator"
version = "0.1.0"
edition = "2021"
publish = false

[dependencies]
sha2 = "0.10"
zeroize = "1"
thiserror = "1"
