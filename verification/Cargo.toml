[package]
name = "ferrix"
version = "0.1.0"
edition = "2021"
publish = false

[dependencies]
aho-corasick = "1"
nalgebra = "*"
sprs = "*"
faer = "0.20"
rayon = "1"
chrono = "0.4"
clap = { version = "4", features = ["derive"] }
indicatif = "*"
thiserror = "*"
derive_more = { version = "*", features = ["full"] }
