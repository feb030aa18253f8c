[package]
name = "dalzip"
version = "0.1.1"
edition = "2021"
publish = false

[dependencies]
unicode-normalization = "=0.1.26"
blake3 = "=1.8.7"
zip = "=9.2.2"
sevenz-rust2 = "=0.24.2"
tar = "=0.4.46"
flate2 = "=1.1.10"
bzip2 = "=0.6.1"
lzma-rust2 = "=0.25.0"
zstd = "=0.14.3"
tempfile = "=3.27.0"
walkdir = "=2.5.0"
trash = "=5.2.9"
rayon = "=1.12.0"
serde = { version = "=1.0.229", features = ["derive"] }
unrar_sys = "=0.5.8"
core-foundation = "*"
winreg = "*"
