[package]
name = "ufbx"
version = "0.21.2"
edition = "2021"
publish = false

[dependencies]
byteorder = "1"
flate2 = "1"
thiserror = "1"
