[package]
name = "bangumi-proxy"
version = "0.1.0"
edition = "2021"
publish = false

[dependencies]
base64 = "0.22"
clap = { version = "4", features = ["derive"] }
foreign-types-shared = "0.1"
openssl = "0.10"
openssl-sys = "0.9"
parking_lot = "0.12"
rcgen = "0.13"
rustls = { version = "0.23", default-features = false, features = ["ring", "std", "logging", "tls12"] }
which = "7"
