[package]
name = "guardian_vault"
version = "0.1.0"
edition = "2021"
publish = false

[dependencies]
sha2 = "*"
candid = "*"
ic-cdk = "*"
ic-stable-structures = "*"
serde = "*"
num-bigint = "*"
num-traits = "*"
