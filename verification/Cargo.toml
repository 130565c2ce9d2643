[package]
name = "clar2wasm"
version = "0.1.0"
edition = "2021"
publish = false

[dependencies]
walrus = "=0.20.3"
id-arena = "=2.3.0"
clarity-vm = { version = "=2.3.0", default-features = false, features = ["wasm"] }

[dev-dependencies]
wasmi = "=2.0.0"
