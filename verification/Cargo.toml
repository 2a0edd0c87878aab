[package]
name = "randgen"
version = "0.1.0"
edition = "2021"
publish = false

[dependencies]
rand = "0.8"
random-string = "1"
uuid = { version = "1", features = ["v4"] }
clap = { version = "4", features = ["derive"] }
indicatif = "0.17"
num_cpus = "1"
miow = "0.6"
