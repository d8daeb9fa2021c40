[package]
name = "tinywasm-component-abi"
version = "0.1.0"
edition = "2021"

[dependencies]
tinywasm = "=0.10.0"

[dev-dependencies]
wat = "=1.263.0"
