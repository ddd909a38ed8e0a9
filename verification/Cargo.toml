[package]
name = "hako"
version = "0.1.0"
edition = "2021"
publish = false

[dependencies]
md-5 = "0.10"
sha2 = "0.10"
tar-core = "*"
nix = { version = "0.29", features = ["hostname", "feature", "socket", "uio", "net"] }
socket2 = { version = "0.5", features = ["all"] }
rustls = { version = "0.23", default-features = false, features = ["ring", "std", "tls12", "logging"] }
rustls-native-certs = "0.8"
