[package]
name = "zk_journal"
version = "0.1.0"
edition = "2021"
publish = false

[dependencies]
blake2 = "=0.10.6"
sha3 = "=0.10.9"
risc0-zkvm = "=0.17.0"
risc0-zkp = "=0.17.0"
