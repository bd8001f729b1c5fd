[package]
name = "befunge"
version = "0.1.0"
edition = "2021"
publish = false

[dependencies]
clipline = "=0.3.0"
coarsetime = "=0.1.38"
