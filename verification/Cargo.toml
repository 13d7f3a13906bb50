[package]
name = "factorize"
version = "0.1.0"
edition = "2021"
publish = false

[dependencies]
num-bigint = { version = "0.4", features = ["rand"] }
num-integer = "*"
rand = "0.8"
structopt = "=0.3.26"
