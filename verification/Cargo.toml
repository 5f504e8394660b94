[package]
name = "bandit_lite"
version = "0.1.0"
edition = "2021"
publish = false

[dependencies]
crossterm = "=0.29.0"
md5 = "=0.8.1"
directories = "=6.0.0"
