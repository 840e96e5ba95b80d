[package]
name = "nodi"
version = "0.1.0"
edition = "2021"
publish = false

[dependencies]
midly = { version = "0.5", default-features = false, features = ["std", "alloc"] }
midir = "*"
clap = { version = "3", default-features = false, features = ["std", "cargo"] }
log = "0.4"
