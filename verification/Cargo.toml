[package]
name = "sense_hat"
version = "0.1.0"
edition = "2021"
publish = false

[dependencies]
dirs = "*"
glob = "*"
libc = "0.2"
thiserror = "*"
