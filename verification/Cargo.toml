[package]
name = "plife"
version = "0.1.0"
edition = "2021"
publish = false

[dependencies]
rand = "0.8"
rand_distr = "0.4"
serde = { version = "1", features = ["derive"] }
serde_yaml = "0.9"
structopt = "0.3"
ctrlc = "3"
