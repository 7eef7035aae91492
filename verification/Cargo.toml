[package]
name = "jen"
version = "0.1.0"
edition = "2021"
publish = false

[dependencies]
nannou_osc = "=0.1.0"
