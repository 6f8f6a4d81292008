[package]
name = "rubik_cage"
version = "0.1.0"
edition = "2021"
publish = false

[dependencies]
bincode = "2"
rand = "0.9"
clap = { version = "4", features = ["derive"] }
