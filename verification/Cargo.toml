[package]
name = "benaloh_cryptosystem"
version = "0.1.0"
edition = "2021"
publish = false

[dependencies]
crypto-bigint = { version = "0.5", features = ["rand_core"] }
crypto-primes = "0.5"
rand = "0.8"
sha3 = "0.10"
