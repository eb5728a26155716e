[package]
name = "sozo_migrate"
version = "0.1.0"
edition = "2021"
publish = false

[dependencies]
anyhow = "*"
cainome = "*"
dojo-types = "*"
futures = "*"
starknet = "*"
starknet-crypto = "*"
tracing = "*"
