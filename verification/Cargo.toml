[package]
name = "tileworld"
version = "0.1.0"
edition = "2021"
publish = false

[dependencies]
image = "*"
ureq = "*"
rusqlite = { version = "*", features = ["bundled"] }
