[package]
name = "rust_zip_archive"
version = "0.1.0"
edition = "2021"
publish = false

[dependencies]
zip = { version = "2", default-features = false, features = ["deflate", "bzip2", "zstd"] }
tar = "0.4"
flate2 = "1"
bzip2 = "0.5"
xz2 = "0.1"
zstd = "0.13"
walkdir = "2"
anyhow = "1"
clap = { version = "4", features = ["derive"] }
indicatif = "0.17"

[dev-dependencies]
tempfile = "3"
