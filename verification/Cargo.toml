[package]
name = "stateless_ledger"
version = "0.1.0"
edition = "2021"
publish = false

[dependencies]
gmp-mpfr-sys = { version = "*", default-features = false, features = ["use-system-libs"] }
multiqueue = "=0.3.2"
rug = { version = "=1.19.2", default-features = false, features = ["integer"] }
uuid = { version = "=1.29.0", features = ["v4"] }
