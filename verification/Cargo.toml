[package]
name = "construct_engine"
version = "0.1.0"
edition = "2021"
publish = false

[dependencies]
candle-core = "*"
candle-nn = "*"
cxx = "*"
numpy = "*"
pyo3 = { version = "*", features = ["extension-module"] }
rocketsim_rs = "=0.37.0"
serde = { version = "1", features = ["derive"] }
serde_json = "1"
toml = "*"
