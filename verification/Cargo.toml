[package]
name = "icicle_jit_mem"
version = "0.1.0"
edition = "2021"
publish = false

[dependencies]
cranelift = "=0.89.2"
cranelift-codegen = "=0.89.2"

[dev-dependencies]
cranelift-interpreter = "=0.89.2"
