[package]
name = "circuit_bench"
version = "0.1.0"
edition = "2021"
publish = false

[dependencies]
clap = { version = "=4.6.7", features = ["derive"] }
itertools = "=0.15.0"
rand = { version = "=0.8.8", features = ["small_rng"] }
rmp-serde = "=1.3.1"
tket2 = { version = "=0.12.3", default-features = false, features = ["portmatching"] }
union-find = "=0.4.4"
uuid = { version = "=1.29.0", features = ["v4"] }
walkdir = "=2.5.0"
