[package]
name = "ar_flac"
version = "0.1.0"
edition = "2021"
publish = false

[dependencies]
rayon = "*"
clap = "*"
glob = "*"
metaflac = "*"
reqwest = { version = "*", default-features = false, features = ["blocking"] }
