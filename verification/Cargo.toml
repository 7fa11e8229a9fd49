[package]
name = "arena"
version = "0.1.0"
edition = "2021"
publish = false

[dependencies]
anyhow = "=1.0.104"
wasmtime = "=36.0.19"
wasmtime-wasi = "=36.0.19"
wit-bindgen = "=0.63.0"
