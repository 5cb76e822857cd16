[package]
name = "steel"
version = "0.1.0"
edition = "2021"
publish = false

[dependencies]
simdnbt = "=0.9.0"
uuid = { version = "=1.29.0", features = ["v4"] }
serde = { version = "=1.0.229", features = ["derive"] }
rand = "=0.10.3"
rustc-hash = "=2.1.3"
log = "=0.4.35"
