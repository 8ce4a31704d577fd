[package]
name = "pg_ripple"
version = "0.1.0"
edition = "2021"
publish = false

[dependencies]
chrono = "=0.4.45"
xxhash-rust = { version = "=0.8.19", features = ["xxh3"] }
serde_json = "=1.0.154"
thiserror = "=1.0.69"
lru = "=0.12.5"
unicode-normalization = "=0.1.26"
ureq = "=2.12.1"
