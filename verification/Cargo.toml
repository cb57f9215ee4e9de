[package]
name = "jolt-core"
version = "0.1.0"
edition = "2021"
publish = false

[dependencies]
ark-bn254 = "0.4"
ark-ec = "0.4"
ark-ff = "0.4"
ark-serialize = { version = "0.4", features = ["derive"] }
ark-std = "0.4"
rand_chacha = "0.3"
rand_core = "0.6"
rayon = "1"
sha3 = "0.10"
