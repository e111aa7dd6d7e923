[package]
name = "downsample"
version = "0.1.0"
edition = "2021"
publish = false

[dependencies]
asap = "*"
rustc_apfloat = "*"
simple-soft-float = "*"
softfloat-wrapper = "*"
