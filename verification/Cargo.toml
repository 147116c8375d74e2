[package]
name = "radish"
version = "0.1.0"
edition = "2021"
publish = false

[dependencies]
byteorder = "1"
bzip2 = "0.6"
chrono = "0.4"
rayon = "1"
ndarray = "*"
netcdf = "0.12"
numpy = "*"
pyo3 = { version = "*", features = ["extension-module"] }
thiserror = "2"
