[package]
name = "nyx_space"
version = "0.1.0"
edition = "2021"
publish = false

[dependencies]
hifitime = "3.8"
nalgebra = "0.32"
rand = "0.8"
rand_distr = "0.4"
serde = { version = "1.0", features = ["derive"] }
serde_yaml = "0.9"

[dev-dependencies]
rand_pcg = "0.3"
