[package]
name = "brodo_utils"
version = "0.1.0"
edition = "2021"
publish = false

[dependencies]
blake2 = "0.10"
blake3 = "1"
chrono = "0.4"
clap = { version = "4", features = ["derive"] }
digest = "0.10"
md-5 = "0.10"
regex = "1"
sha1 = "0.10"
sha2 = "0.10"
walkdir = "2"
