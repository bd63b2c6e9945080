[package]
name = "mergiraf"
version = "0.1.0"
edition = "2021"
publish = false

[dependencies]
diffy-imara = "=0.3.2"
clap = { version = "=4.6.7", features = ["derive"] }
log = "=0.4.35"
stderrlog = "=0.6.0"
rand = "=0.8.8"
etcetera = "=0.11.0"
zip = { version = "=9.2.2", default-features = false }
rustc-hash = "2"
