[package]
name = "pbuildrs"
version = "0.1.0"
edition = "2021"
publish = false

[dependencies]
clap = { version = "4", features = ["derive"] }
rayon = "1"
tempfile = "3"
thiserror = "2"
tonic-prost-build = "*"
walkdir = "2"
