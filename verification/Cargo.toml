[package]
name = "rustle"
version = "0.1.0"
edition = "2021"
publish = false

[dependencies]
regex = "1"
llvm-sys = "*"
libc = "0.2"
near-sdk = { version = "4.1", default-features = false }
near-contract-standards = { version = "4.1", default-features = false }
