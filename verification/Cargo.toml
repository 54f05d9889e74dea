[package]
name = "named_return"
version = "0.1.0"
edition = "2021"
publish = false

[dependencies]
proc-macro2 = { version = "0.4", default-features = false }
syn = { version = "0.15", default-features = false, features = ["full", "parsing"] }
