[package]
name = "pyvoy"
version = "0.1.0"
edition = "2021"
publish = false

[dependencies]
http = "=1.3.1"
urlencoding = "=2.1.3"
encoding_rs = "=0.8.35"
itoa = "=1.0.15"
url = "=2.5.4"
yaml-rust2 = "=0.10.4"
tungstenite = "=0.27.0"
bytes = "=1.10.1"
crossbeam-channel = "=0.5.15"
pyo3 = "=0.27.2"
