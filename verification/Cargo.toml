[package]
name = "orjson"
version = "0.1.0"
edition = "2021"
publish = false

[dependencies]
itoa = "=1.0.18"
heapless = "=0.8.0"
jiff = "=0.2.39"
simdutf8 = "=0.1.5"
xxhash-rust = { version = "=0.8.19", features = ["xxh3"] }
serde = "=1.0.229"
serde_json = { version = "=1.0.154", features = ["raw_value"] }
ryu = "=1.0.23"
lexical-core = "=1.0.6"
pyo3-ffi = { version = "=0.23.5", features = ["abi3-py38"] }
