[package]
name = "blockfmt"
version = "0.1.0"
edition = "2021"
publish = false

[dependencies]
atty = "=0.2.14"
proc-macro2 = "=1.0.107"
quote = "=1.0.47"
semver = "1"
syn = { version = "=2.0.119", features = ["full"] }
