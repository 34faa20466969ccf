[package]
name = "seedsearch"
version = "0.1.0"
edition = "2021"
publish = false

[dependencies]
wgpu = "*"
pollster = "*"
anyhow = "*"
env_logger = "*"
