[package]
name = "vzglyd_sidecar"
version = "0.1.0"
edition = "2021"
publish = false

[dependencies]
rustls = { version = "0.23", default-features = false, features = ["std", "tls12", "logging"] }
rustls-pki-types = { version = "1", features = ["std"] }
rustls-rustcrypto = "0.0.2-alpha"
serde = { version = "1", features = ["derive"] }
serde_json = "1"
webpki-roots = "0.26"
