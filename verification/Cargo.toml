[package]
name = "polkadot_parts"
version = "0.1.0"
edition = "2021"
publish = false

[dependencies]
bitvec = { version = "1", default-features = false, features = ["alloc"] }
parity-scale-codec = { version = "3", default-features = false, features = ["derive", "std", "bit-vec"] }
sp-crypto-hashing = { version = "0.1", default-features = false, features = ["std"] }
sp-arithmetic = { version = "*", default-features = false, features = ["std"] }
