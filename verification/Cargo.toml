[package]
name = "cbor_socket"
version = "0.1.0"
edition = "2021"
publish = false

[dependencies]
crossbeam = "0.8"
thiserror = "1"

[dev-dependencies]
serde_cbor = "0.11"
