[package]
name = "fucker"
version = "0.1.0"
edition = "2021"
publish = false

[dependencies]
libc = "*"
docopt = "*"
serde = "*"
serde_derive = "*"
