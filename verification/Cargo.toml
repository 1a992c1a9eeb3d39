[package]
name = "rgpy"
version = "0.1.0"
edition = "2021"
publish = false

[dependencies]
regex = "1"
pcre2 = "0.2"
rayon = "1"
walkdir = "2"
pyo3 = { version = "0.20", features = ["extension-module"] }
