[package]
name = "tri_space"
version = "0.1.0"
edition = "2021"
publish = false

[dependencies]
anyhow = "1"
atomic_float = "1"
crossbeam-channel = "0.5"
hound = "3.5"
rand = "0.8"
rand_pcg = "0.3"
rfd = { version = "0.14", default-features = false }
rustfft = "6"
