[package]
name = "dns_cache"
version = "0.1.0"
edition = "2021"
publish = false

[dependencies]
boring2 = "*"
hickory-resolver = "*"
bytes = "*"
