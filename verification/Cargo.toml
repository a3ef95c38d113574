[package]
name = "piper"
version = "0.1.0"
edition = "2021"
publish = false

[dependencies]
anyhow = "1"
crossbeam-channel = "0.5"
kanal = "0.1"
parking_lot = "0.12"
proc-macro2 = "1"
quote = "1"
rand = "*"
syn = { version = "2", features = ["full"] }
thiserror = "*"
