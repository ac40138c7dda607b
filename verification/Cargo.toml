[package]
name = "meiosim"
version = "0.1.0"
edition = "2021"
publish = false

[dependencies]
rand = "=0.8.8"
rand_distr = "=0.4.3"
regex = "=1.13.1"
log = "=0.4.34"
simplelog = "=0.12.2"
clap = { version = "=4.6.7", features = ["derive"] }
rust-htslib = { version = "=0.46.0", default-features = false }
hts-sys = { version = "~2.1", default-features = false }
