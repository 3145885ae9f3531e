[package]
name = "fp_study"
version = "0.1.0"
edition = "2021"
publish = false

[dependencies]
rayon = "1"
thiserror = "*"
anyhow = "1"
