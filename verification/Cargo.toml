[package]
name = "haversine"
version = "0.1.0"
edition = "2021"
publish = false

[dependencies]
clap = { version = "4", features = ["derive"] }
rand = "0.9"
rand_pcg = "0.9"
