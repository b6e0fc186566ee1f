[package]
name = "ckb_default_impls"
version = "0.1.0"
edition = "2021"
publish = false

[dependencies]
ckb-hash = "=0.104.1"
ckb-jsonrpc-types = "=0.104.1"
ckb-resource = "=0.104.1"
ckb-types = "=0.104.1"
log = "0.4"
lru = "=0.7.8"
parking_lot = "=0.12.5"
secp256k1 = { version = "=0.20.3", features = ["recovery"] }
thiserror = "=1.0.69"
