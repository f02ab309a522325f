[package]
name = "data-jet"
version = "0.1.0"
edition = "2021"
publish = false

[dependencies]
bytes = "=1.12.1"
numpy = "=0.24.0"
pyo3 = { version = "=0.24.2", features = ["abi3-py38", "extension-module"] }
rand = "=0.8.8"
tokio = { version = "=1.54.1", features = ["rt-multi-thread", "sync"] }
