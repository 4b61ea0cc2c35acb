[package]
name = "colorcet"
version = "0.1.0"
edition = "2021"
publish = false

[dependencies]
colorgrad = { version = "=0.8.0", features = ["named-colors"] }
num-traits = "=0.2.19"
thiserror = "=2.0.21"
