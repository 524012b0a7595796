[package]
name = "carboncopycat"
version = "0.1.0"
edition = "2021"
publish = false

[dependencies]
owo-colors = "*"
thiserror = "*"
