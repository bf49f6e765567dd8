[package]
name = "equations"
version = "0.1.0"
edition = "2021"
publish = false

[dependencies]
anyhow = "1"
cordic = "0.1"
fixed = "1"
serde = "1"
