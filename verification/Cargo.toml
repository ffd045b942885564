[package]
name = "fc_blackbox"
version = "0.1.0"
edition = "2021"
publish = false

[dependencies]
nom = "7"
num-rational = { version = "0.4", default-features = false, features = ["std"] }
num-traits = "0.2"
itertools = "0.10"
thiserror = "1"
