[package]
name = "revmc-runtime"
version = "0.1.0"
edition = "2021"
publish = false

[dependencies]
alloy-primitives = "1"
crossbeam-channel = "0.5"
crossbeam-queue = "0.3"
dashmap = "6"
libloading = "0.8"
quanta = "0.12"
revm-primitives = { version = "*", default-features = false, features = ["std"] }
