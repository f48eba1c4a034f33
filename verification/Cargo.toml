[package]
name = "formality_prove"
version = "0.1.0"
edition = "2021"
publish = false

[dependencies]
formality-core = "0.2.0"
formality-macros = "0.2.0"
tracing = "0.1.44"
