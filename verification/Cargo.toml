[package]
name = "tension_core"
version = "0.1.0"
edition = "2021"
publish = false

[dependencies]
anyhow = "=1.0.104"
wasmtime = { version = "=46.0.3", default-features = false, features = ["runtime", "cranelift", "wat"] }
yaml-rust2 = "=0.13.0"
