[package]
name = "xlstream"
version = "0.1.0"
edition = "2021"
publish = false

[dependencies]
thiserror = "=2.0.21"
rust_xlsxwriter = "=0.102.0"
num_cpus = "1"
