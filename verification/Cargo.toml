[package]
name = "rust_mc_bot"
version = "0.1.0"
edition = "2021"
publish = false

[dependencies]
libdeflater = "*"
mio = { version = "*", features = ["net", "os-poll"] }
rand = "*"
num_cpus = "*"
antithesis_sdk = "*"
anyhow = "*"
