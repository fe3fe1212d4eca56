[package]
name = "zkey_core"
version = "0.1.0"
edition = "2021"
publish = false

[dependencies]
ark-bn254 = "0.4"
ark-ec = "0.4"
ark-ff = "0.4"
ark-groth16 = { version = "0.4", default-features = false }
ark-relations = "0.4"
ark-serialize = "0.4"
ark-std = "0.4"
color-eyre = "0.6"
memmap2 = "0.9"
