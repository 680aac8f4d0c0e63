[package]
name = "zkevm_verifier"
version = "0.1.0"
edition = "2021"
publish = false

[dependencies]
plonky2 = "=0.2.2"
anyhow = "=1.0.104"
itertools = "=0.15.0"
hex = "=0.4.3"
ciborium = "=0.2.2"
ciborium-io = "=0.2.2"
serde = { version = "=1.0.229", features = ["derive"] }
thiserror = "=2.0.21"
ethereum-types = "=0.16.0"
enumn = "=0.1.14"
eth_trie_utils = "=0.5.0"
