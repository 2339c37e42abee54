[package]
name = "icrc21_consent"
version = "0.1.0"
edition = "2021"
publish = false

[dependencies]
candid = "=0.10.37"
serde = "*"
serde_bytes = "=0.11.19"
ic-cdk = "=0.20.3"
