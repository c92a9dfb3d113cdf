[package]
name = "aio"
version = "0.1.0"
edition = "2021"
publish = false

[dependencies]
num_cpus = "*"
two-lock-queue = "*"
walkdir = "*"
rollsum = "*"
rust-crypto = "*"
