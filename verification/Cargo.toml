[package]
name = "photon"
version = "0.1.0"
edition = "2021"
publish = false

[dependencies]
blake3 = "1"
memmap2 = "0.9"
rustc_apfloat = "*"
arrow = { version = "*", default-features = false, features = ["csv"] }
parquet = { version = "*", default-features = false, features = ["arrow"] }
tokio = { version = "1", features = ["rt-multi-thread"] }
pyo3 = "0.22"

[dev-dependencies]
tempfile = "3"
