[package]
name = "tea_sir"
version = "0.1.0"
edition = "2021"

[dependencies]
glam = "=0.30.10"
libm = "=0.2.16"
