[package]
name = "rdf"
version = "0.1.0"
edition = "2021"
publish = false

[dependencies]
colored = "*"
nix = { version = "*", features = ["fs"] }
