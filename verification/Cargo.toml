[package]
name = "ferro_engine"
version = "3.0.0"
edition = "2021"
publish = false

[dependencies]
once_cell = "1"
pyo3 = { version = "*", features = ["abi3"] }
rayon = "1"
regex = "1"
unicode-segmentation = "1"
