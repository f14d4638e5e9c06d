[package]
name = "kimbo"
version = "1.0.0"
edition = "2021"
publish = false

[dependencies]
fastrand = "1"
