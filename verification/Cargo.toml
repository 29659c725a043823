[package]
name = "array_kernels"
version = "0.1.0"
edition = "2021"
publish = false

[dependencies]
numpy = "*"
pyo3 = "*"
rayon = "1"
vforce = "*"
