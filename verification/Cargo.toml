[package]
name = "nate"
version = "0.1.0"
edition = "2021"
publish = false

[dependencies]
blake2 = "0.10"
hex = "0.4"

[dev-dependencies]
ryu = "1"
