[package]
name = "better_bucket"
version = "0.8.0"
edition = "2021"
publish = false

[dependencies]
clock-lib = "=1.1.0"
error-forge = "=1.0.2"
