[package]
name = "stealth_drop"
version = "0.1.0"
edition = "2021"
publish = false

[dependencies]
halo2-base = { version = "=0.5.5", features = ["test-utils"] }
halo2-ecc = "=0.5.5"
num-bigint = "=0.4.8"
num-traits = "=0.2.19"

[dev-dependencies]
rand = "=0.8.8"
