[package]
name = "hermit_core"
version = "0.1.0"
edition = "2021"
publish = false

[dependencies]
iter-tree = "=0.1.10"
