[package]
name = "key-share"
version = "0.1.0"
edition = "2021"
publish = false

[dependencies]
generic-ec = { version = "*", features = ["curve-secp256k1"] }
generic-ec-zkp = "*"
hd-wallet = { version = "*", default-features = false }
rand_core = { version = "0.6", features = ["getrandom"] }
displaydoc = "*"
thiserror = "*"
