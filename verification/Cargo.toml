[package]
name = "zkips"
version = "0.1.0"
edition = "2021"
publish = false

[dependencies]
ark-bls12-381 = "0.3"
ark-ec = "0.3"
ark-ff = "0.3"
ark-serialize = "0.3"
ark-groth16 = "0.3"
ark-relations = "0.3"
ark-r1cs-std = "0.3"
sha3 = "0.10"
blake2 = "0.10"
rand = "0.8"
rand_chacha = "0.3"
serde = { version = "1", features = ["derive"] }
