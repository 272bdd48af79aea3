[package]
name = "roc_gen"
version = "0.1.0"
edition = "2021"
publish = false

[dependencies]
bumpalo = { version = "=3.20.3", features = ["collections"] }
cranelift = "=0.133.3"
cranelift-module = "=0.133.3"
