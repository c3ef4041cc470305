[package]
name = "serde_kdl"
version = "0.1.0"
edition = "2021"
publish = false

[dependencies]
base64 = "0.13"
serde = "1"
thiserror = "1"
