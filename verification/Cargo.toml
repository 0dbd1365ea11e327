[package]
name = "threshold_bls"
version = "0.1.0"
edition = "2021"
publish = false

[dependencies]
ark-bls12-381 = "0.5"
ark-ec = "0.5"
ark-ff = "0.5"
ark-serialize = "0.5"
ark-std = "0.5"
rand = "0.9"
sha2 = "0.10"
thiserror = "2"
