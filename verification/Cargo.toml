[package]
name = "rustfluent"
version = "0.1.0"
edition = "2021"
publish = false

[dependencies]
chrono = { version = "=0.4.45", default-features = false, features = ["std", "alloc"] }
fluent = "=0.17.0"
fluent-bundle = "=0.16.0"
fluent-syntax = "=0.12.0"
intl-memoizer = "=0.5.3"
miette = { version = "=7.6.0", features = ["fancy"] }
pyo3 = { version = "=0.25.1", features = ["abi3-py310", "chrono", "extension-module"] }
unic-langid = "=0.9.6"
