[package]
name = "egml_io"
version = "0.1.0"
edition = "2021"
publish = false

[dependencies]
egml-core = "=0.0.2-alpha.5"
