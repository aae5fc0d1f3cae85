[package]
name = "orbit_simulator"
version = "0.1.0"
edition = "2021"
publish = false

[dependencies]
euclid = "*"
json5 = "*"
serde = { version = "*", features = ["derive"] }
rand = "*"
rand_distr = "*"
