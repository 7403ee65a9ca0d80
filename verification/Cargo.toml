[package]
name = "plonk_keys"
version = "0.1.0"
edition = "2021"
publish = false

[dependencies]
derive-hex = "=0.1.2"
dusk-bls12_381 = { version = "=0.13.0", default-features = false, features = ["groups"] }
dusk-bytes = "=0.1.7"
merlin = { version = "=3.0.0", default-features = false }
