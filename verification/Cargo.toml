[package]
name = "hash_cracker"
version = "0.1.0"
edition = "2021"
publish = false

[dependencies]
md5 = "0.7"
sha1 = "0.10"
sha2 = "0.10"
rayon = "1"
anyhow = "1"
clap = { version = "4", features = ["derive"] }
indicatif = "0.17"
opencl3 = "0.9"
