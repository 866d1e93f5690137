[package]
name = "union_gov"
version = "0.1.0"
edition = "2021"
publish = false

[dependencies]
candid = { version = "=0.9.11", features = ["parser"] }
