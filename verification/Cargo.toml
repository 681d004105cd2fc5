[package]
name = "rust_caller"
version = "0.1.0"
edition = "2021"
publish = false

[dependencies]
ocaml-interop = "0.2"
