[package]
name = "rust_covfix"
version = "0.1.0"
edition = "2021"
publish = false

[dependencies]
regex = "1"
argparse = "0.2"
error-chain = { version = "0.12", default-features = false }
