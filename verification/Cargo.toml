[package]
name = "ewb"
version = "0.1.0"
edition = "2021"
publish = false

[dependencies]
regex = "1"
rustls = { version = "0.23", default-features = false, features = ["ring", "std", "tls12", "logging"] }
webpki-roots = "0.26"
pyo3 = "0.22"
