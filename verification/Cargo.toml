[package]
name = "peer_routing"
version = "0.1.0"
edition = "2021"
publish = false

[dependencies]
borsh = "0.9"
chrono = { version = "0.4", default-features = false, features = ["clock", "std"] }
semver = "1"
toml = "0.5"
