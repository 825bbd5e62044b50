[package]
name = "mockdb"
version = "0.1.0"
edition = "2021"
publish = false

[dependencies]
borsh = "*"
proc-macro2 = "*"
quote = "*"
syn = { version = "*", features = ["full"] }
