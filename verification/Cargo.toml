[package]
name = "cistell_core"
version = "0.1.0"
edition = "2021"
publish = false

[dependencies]
indexmap = "2"
toml = "0.8"
serde_yaml = "0.9"
serde_json = "1"
tracing = "0.1"
syn = { version = "2", features = ["full"] }
quote = "1"
proc-macro2 = "1"
pyo3 = "*"
