[package]
name = "rtil_hook"
version = "0.1.0"
edition = "2021"
publish = false

[dependencies]
byteorder = "1"
lazy_static = "1"
proc-macro2 = "1"
quote = "1"
syn = { version = "1", features = ["full"] }
