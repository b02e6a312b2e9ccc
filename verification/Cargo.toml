[package]
name = "poseidon2_bn256"
version = "0.1.0"
edition = "2021"
publish = false

[dependencies]
zkhash = "=0.2.0"
ark-ff = "=0.4.2"
num-bigint = "=0.4.8"
bn254_blackbox_solver = "*"
acir_field = "*"
wasm-bindgen = "*"
