[package]
name = "fastdown"
version = "0.1.0"
edition = "2021"
publish = false

[dependencies]
bytes = "=1.12.1"
fast-down-ffi = { version = "=0.3.0", features = ["file", "mem"] }
parking_lot = "=0.12.5"
pyo3 = "0.28"
pyo3-async-runtimes = { version = "0.28", features = ["tokio-runtime"] }
tokio = { version = "=1.54.1", features = ["macros", "rt", "sync"] }
tokio-util = "=0.7.20"
url = "=2.5.8"
