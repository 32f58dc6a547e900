[package]
name = "stlsat"
version = "0.1.0"
edition = "2021"
publish = false

[dependencies]
z3 = "*"
num-rational = "0.4"
clap = { version = "4", features = ["derive"] }
dot_graph = "*"
rand = "0.9"
