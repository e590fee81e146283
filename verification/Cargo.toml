[package]
name = "tacn_backtest"
version = "0.1.0"
edition = "2021"
publish = false

[dependencies]
serde_json = "1"
pyo3 = "0.23"
