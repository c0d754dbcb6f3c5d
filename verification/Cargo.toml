[package]
name = "ascon_prng"
version = "0.1.0"
edition = "2021"
publish = false

[dependencies]
ascon = "0.4"
digest = { version = "0.10", features = ["mac"] }
generic-array = "0.14"
rand_core = "0.6"
typenum = "1"
