[package]
name = "p2pshare"
version = "0.1.0"
edition = "2021"
publish = false

[dependencies]
rust-crypto = "0.2.36"
libp2p = { version = "0.53", default-features = false, features = ["async-std", "tcp", "mdns", "noise", "yamux", "macros"] }
async-std = "1"
futures = "0.3"
