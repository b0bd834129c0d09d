[package]
name = "sha_on_cq"
version = "0.1.0"
edition = "2021"
publish = false

[dependencies]
sha2 = "0.10"
tabled = "0.15"
