[package]
name = "superwork"
version = "0.1.0"
edition = "2021"
publish = false

[dependencies]
clap = { version = "4", features = ["derive"] }
petgraph = "0.8"
semver = "1"
serde = { version = "1", features = ["derive"] }
toml = "0.8"
toml_edit = "0.22"
