[package]
name = "kentauri"
version = "0.1.0"
edition = "2021"
publish = false

[dependencies]
ustr = "*"
rustc_apfloat = "*"
