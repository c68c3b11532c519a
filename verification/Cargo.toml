[package]
name = "skyengine"
version = "0.1.0"
edition = "2021"
publish = false

[dependencies]
flate2 = "=1.1.10"
jpeg-decoder = { version = "0.3", default-features = false }
encoding_rs = "0.8"
