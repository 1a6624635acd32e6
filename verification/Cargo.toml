[package]
name = "hermes-rs"
version = "0.1.0"
edition = "2021"
publish = false

[dependencies]
toml = "0.8"
serde = { version = "1", features = ["derive"] }
clap = { version = "4", features = ["derive"] }
bincode = "1"
thiserror = "2"
rand = "0.9"
rand_chacha = "0.9"
ndarray = "0.16"
ndrustfft = "0.5"
num-complex = "0.4"
indicatif = "0.17"
image = { version = "0.25", default-features = false, features = ["gif"] }
