[package]
name = "cube_engine"
version = "0.1.0"
edition = "2021"
publish = false

[dependencies]
byteorder = "1"
heck = "0.3"
libflate = "1"
linked-hash-map = "0.5"
proc-macro2 = "1"
quote = "1"
serde_json = "1"
yaml-rust = "0.4"
