[package]
name = "gennaro_dkg"
version = "0.1.0"
edition = "2021"
publish = false

[dependencies]
k256 = "=0.11.6"
vsss-rs = { version = "=2.1.0", default-features = false, features = ["std"] }
rand_core = { version = "=0.6.4", features = ["std", "getrandom"] }
rand_chacha = "=0.3.1"
base64-url = "=3.0.4"
uint-zigzag = "=0.2.0"
serde = { version = "=1.0.229", features = ["derive"] }
soteria-rs = "=0.5.0"
